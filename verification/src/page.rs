//! The reader's page: the rendered Markdown placed in the page template, the
//! reading time, and the location of the Mermaid script.

use vstd::prelude::*;
use crate::markdown::{string_views, escape_text, push_escaped, render, render_html, text_word_count};
use crate::template::{html_template, push_template};
use crate::text::{
    chars_of, contains, decimal, find_from, lemma_find_from, lemma_occurs_contains,
    lemma_occurs_char, lemma_occurs_in_middle, lemma_replace_char_pointwise, lemma_replace_removes_char, matches_at,
    occurs_at, push_all, push_decimal, push_str, replace_all, replace_chars, string_of,
};

verus! {

/// HTML-escapes a value for safe injection into the page: `&`, `<`, `>` and
/// `"` become entities.
pub fn html_escape(s: &str) -> (r: String)
    ensures
        r@ == escape_text(s@),
{
    let v = chars_of(s);
    let mut out: Vec<char> = Vec::new();
    push_escaped(&mut out, &v);
    string_of(&out)
}

/// The `file://` URL of a path: `file://` and the path with each `\` turned
/// into `/`.
pub open spec fn file_url_spec(path: Seq<char>) -> Seq<char> {
    "file://"@ + replace_all(path, seq!['\\'], seq!['/'])
}

/// The `file://` URL of a path.
pub fn file_url(path: &str) -> (r: String)
    ensures
        r@ == file_url_spec(path@),
{
    let p = chars_of(path);
    let back: Vec<char> = vec!['\\'];
    let slash: Vec<char> = vec!['/'];
    assert(back@ =~= seq!['\\']);
    assert(slash@ =~= seq!['/']);
    let fixed = replace_chars(&p, &back, &slash);
    let mut out: Vec<char> = Vec::new();
    push_str(&mut out, "file://");
    push_all(&mut out, &fixed);
    string_of(&out)
}

/// The `file://` URL of a path is `file://` followed by the path with each
/// `\` turned into `/` and every other character kept.
pub proof fn lemma_file_url_pointwise(path: Seq<char>)
    ensures
        file_url_spec(path).len() == path.len() + 7,
        file_url_spec(path).subrange(0, 7) == seq!['f', 'i', 'l', 'e', ':', '/', '/'],
        forall|i: int|
            0 <= i < path.len() ==> #[trigger] file_url_spec(path)[i + 7] == (if path[i] == '\\' {
                '/'
            } else {
                path[i]
            }),
{
    reveal_strlit("file://");
    lemma_replace_char_pointwise(path, '\\', '/', 0);
    let r = replace_all(path, seq!['\\'], seq!['/']);
    assert(file_url_spec(path).subrange(0, 7) =~= seq!['f', 'i', 'l', 'e', ':', '/', '/']);
    assert forall|i: int| 0 <= i < path.len() implies #[trigger] file_url_spec(path)[i + 7] == (if path[i]
        == '\\' {
        '/'
    } else {
        path[i]
    }) by {
        assert(file_url_spec(path)[i + 7] == r[i]);
        assert(path[0 + i] == path[i]);
    }
}

/// A `file://` URL holds no backslash: every path separator is `/`.
pub proof fn lemma_file_url_has_no_backslash(path: Seq<char>)
    ensures
        forall|i: int| 0 <= i < file_url_spec(path).len() ==> #[trigger] file_url_spec(path)[i] != '\\',
{
    reveal_strlit("file://");
    let pre = "file://"@;
    let r = replace_all(path, seq!['\\'], seq!['/']);
    lemma_replace_removes_char(path, '\\', seq!['/'], 0);
    assert forall|i: int| 0 <= i < file_url_spec(path).len() implies #[trigger] file_url_spec(
        path,
    )[i] != '\\' by {
        if i < pre.len() {
            assert(file_url_spec(path)[i] == pre[i]);
        } else {
            assert(file_url_spec(path)[i] == r[i - pre.len()]);
        }
    }
}

/// `base` joined with the relative path `part` (as `Path::join`): no
/// separator is put between them when `base` is empty or already ends with
/// the separator `sep`.
pub open spec fn path_join(base: Seq<char>, part: Seq<char>, sep: char) -> Seq<char> {
    if base.len() == 0 || base.last() == sep {
        base + part
    } else {
        base + seq![sep] + part
    }
}

/// The view of an optional string slice.
pub open spec fn opt_str_view(o: Option<&str>) -> Option<Seq<char>> {
    match o {
        Some(s) => Some(s@),
        None => None,
    }
}

/// The places searched for mermaid.min.js, in order: `dist/` next to the
/// binary, `../../src/dist/` from the binary (the development tree), `dist/`
/// next to the Markdown file, and `MDReader/dist/` in the user data
/// directory; the places whose base directory is unknown are left out.
pub open spec fn mermaid_candidates_spec(
    exe_dir: Option<Seq<char>>,
    md_dir: Option<Seq<char>>,
    data_dir: Option<Seq<char>>,
    sep: char,
) -> Seq<Seq<char>> {
    let js = "mermaid.min.js"@;
    let dist = "dist"@;
    (match exe_dir {
        Some(e) => seq![
            path_join(path_join(e, dist, sep), js, sep),
            path_join(path_join(e, "../../src/dist"@, sep), js, sep),
        ],
        None => Seq::empty(),
    }) + (match md_dir {
        Some(d) => seq![path_join(path_join(d, dist, sep), js, sep)],
        None => Seq::empty(),
    }) + (match data_dir {
        Some(l) => seq![path_join(path_join(path_join(l, "MDReader"@, sep), dist, sep), js, sep)],
        None => Seq::empty(),
    })
}

/// Joins the relative path `part` onto `base`.
fn join_into(base: &Vec<char>, part: &str, sep: char) -> (r: Vec<char>)
    ensures
        r@ == path_join(base@, part@, sep),
{
    let mut r = base.clone();
    if base.len() > 0 && base[base.len() - 1] != sep {
        r.push(sep);
    }
    push_str(&mut r, part);
    assert(r@ =~= path_join(base@, part@, sep));
    r
}

/// The places where mermaid.min.js is looked for, in the order they are
/// tried; `exe_dir` is the binary's directory, `md_dir` the Markdown file's,
/// `data_dir` the user data directory, each where known; `sep` is the path
/// separator.
pub fn mermaid_candidates(
    exe_dir: Option<&str>,
    md_dir: Option<&str>,
    data_dir: Option<&str>,
    sep: char,
) -> (r: Vec<String>)
    ensures
        string_views(r@) == mermaid_candidates_spec(
            opt_str_view(exe_dir),
            opt_str_view(md_dir),
            opt_str_view(data_dir),
            sep,
        ),
{
    let mut r: Vec<String> = Vec::new();
    let ghost mut expected: Seq<Seq<char>> = Seq::empty();
    match exe_dir {
        Some(e) => {
            let e = chars_of(e);
            let a = join_into(&join_into(&e, "dist", sep), "mermaid.min.js", sep);
            let b = join_into(&join_into(&e, "../../src/dist", sep), "mermaid.min.js", sep);
            r.push(string_of(&a));
            r.push(string_of(&b));
            proof {
                expected = seq![a@, b@];
            }
        },
        None => {},
    }
    assert(string_views(r@) =~= expected);
    match md_dir {
        Some(d) => {
            let d = chars_of(d);
            let a = join_into(&join_into(&d, "dist", sep), "mermaid.min.js", sep);
            r.push(string_of(&a));
            proof {
                expected = expected.push(a@);
            }
        },
        None => {},
    }
    assert(string_views(r@) =~= expected);
    match data_dir {
        Some(l) => {
            let l = chars_of(l);
            let a = join_into(
                &join_into(&join_into(&l, "MDReader", sep), "dist", sep),
                "mermaid.min.js",
                sep,
            );
            r.push(string_of(&a));
            proof {
                expected = expected.push(a@);
            }
        },
        None => {},
    }
    assert(string_views(r@) =~= expected);
    assert(expected =~= mermaid_candidates_spec(
        opt_str_view(exe_dir),
        opt_str_view(md_dir),
        opt_str_view(data_dir),
        sep,
    ));
    r
}

/// A place where mermaid.min.js may be, and whether the file is there.
pub struct MermaidCandidate {
    pub path: String,
    pub exists: bool,
}

/// The CDN copy of Mermaid, used when no local copy is found.
pub const MERMAID_CDN: &'static str = "https://cdn.jsdelivr.net/npm/mermaid@11/dist/mermaid.min.js";

/// The script source: the URL of the first candidate that exists, else the CDN.
pub open spec fn mermaid_src_spec(c: Seq<MermaidCandidate>) -> Seq<char>
    decreases c.len(),
{
    if c.len() == 0 {
        MERMAID_CDN@
    } else if c[0].exists {
        file_url_spec(c[0].path@)
    } else {
        mermaid_src_spec(c.drop_first())
    }
}

/// Chooses where the page loads Mermaid from: the first candidate, in order,
/// whose file exists, else the CDN.
pub fn mermaid_src(candidates: &Vec<MermaidCandidate>) -> (r: String)
    ensures
        r@ == mermaid_src_spec(candidates@),
{
    let mut i: usize = 0;
    assert(candidates@.skip(0) =~= candidates@);
    while i < candidates.len()
        invariant
            i <= candidates.len(),
            mermaid_src_spec(candidates@) == mermaid_src_spec(candidates@.skip(i as int)),
        decreases candidates.len() - i,
    {
        assert(candidates@.skip(i as int).drop_first() =~= candidates@.skip(i + 1));
        if candidates[i].exists {
            return file_url(candidates[i].path.as_str());
        }
        i = i + 1;
    }
    String::from_str(MERMAID_CDN)
}

/// The page loads Mermaid from the first candidate, in order, whose file
/// exists: when candidate `k` exists and none before it does, the source is
/// the `file://` URL of candidate `k`.
pub proof fn lemma_mermaid_src_first_existing(c: Seq<MermaidCandidate>, k: int)
    requires
        0 <= k < c.len(),
        c[k].exists,
        forall|j: int| 0 <= j < k ==> !(#[trigger] c[j]).exists,
    ensures
        mermaid_src_spec(c) == "file://"@ + replace_all(c[k].path@, seq!['\\'], seq!['/']),
    decreases k,
{
    if k > 0 {
        assert forall|j: int| 0 <= j < k - 1 implies !(#[trigger] c.drop_first()[j]).exists by {
            assert(c.drop_first()[j] == c[j + 1]);
        }
        assert(!c[0].exists);
        lemma_mermaid_src_first_existing(c.drop_first(), k - 1);
    }
}

/// The CDN is used exactly when no candidate exists; otherwise the source is
/// the `file://` URL of some candidate that exists.
pub proof fn lemma_mermaid_src_cdn_iff_none(c: Seq<MermaidCandidate>)
    ensures
        (forall|j: int| 0 <= j < c.len() ==> !(#[trigger] c[j]).exists) ==> mermaid_src_spec(c)
            == "https://cdn.jsdelivr.net/npm/mermaid@11/dist/mermaid.min.js"@,
        (exists|j: int| 0 <= j < c.len() && (#[trigger] c[j]).exists) ==> exists|j: int|
            0 <= j < c.len() && (#[trigger] c[j]).exists && mermaid_src_spec(c) == "file://"@
                + replace_all(c[j].path@, seq!['\\'], seq!['/']),
    decreases c.len(),
{
    if c.len() > 0 {
        lemma_mermaid_src_cdn_iff_none(c.drop_first());
        assert forall|j: int| 0 <= j < c.len() - 1 implies #[trigger] c.drop_first()[j] == c[j + 1] by {}
        if !c[0].exists {
            if exists|j: int| 0 <= j < c.len() && (#[trigger] c[j]).exists {
                let j = choose|j: int| 0 <= j < c.len() && (#[trigger] c[j]).exists;
                assert(c.drop_first()[j - 1].exists);
                let j2 = choose|j2: int| 0 <= j2 < c.drop_first().len() && (#[trigger] c.drop_first()[j2]).exists
                    && mermaid_src_spec(c.drop_first()) == "file://"@ + replace_all(
                    c.drop_first()[j2].path@,
                    seq!['\\'],
                    seq!['/'],
                );
                assert(c[j2 + 1].exists);
            } else {
                assert forall|j: int| 0 <= j < c.len() - 1 implies !(#[trigger] c.drop_first()[j]).exists by {
                    assert(!c[j + 1].exists);
                }
            }
        }
    }
}

/// Minutes to read `words` words at 200 words a minute, rounded up.
pub fn read_time(words: usize) -> (m: usize)
    ensures
        m == (words + 199) / 200,
{
    if words % 200 == 0 {
        words / 200
    } else {
        words / 200 + 1
    }
}

/// The first of `keys`, from index `j` on, that is non-empty and occurs in `t`
/// at index `i`.
pub open spec fn first_key(t: Seq<char>, keys: Seq<Seq<char>>, i: int, j: int) -> Option<int>
    decreases keys.len() - j,
{
    if j < 0 || j >= keys.len() {
        None
    } else if keys[j].len() > 0 && occurs_at(t, keys[j], i) {
        Some(j)
    } else {
        first_key(t, keys, i, j + 1)
    }
}

/// What `first_key` gives: a non-empty key that occurs there.
pub proof fn lemma_first_key(t: Seq<char>, keys: Seq<Seq<char>>, i: int, j: int)
    ensures
        first_key(t, keys, i, j) matches Some(k) ==> 0 <= k < keys.len() && keys[k].len() > 0
            && occurs_at(t, keys[k], i),
    decreases keys.len() - j,
{
    if 0 <= j < keys.len() && !(keys[j].len() > 0 && occurs_at(t, keys[j], i)) {
        lemma_first_key(t, keys, i, j + 1);
    }
}

/// The template `t` from index `i` on, filled in one pass from left to right:
/// where a key stands, its value is written and the scan goes on after the
/// key; values are written as they are and never scanned again.
pub open spec fn fill_from(t: Seq<char>, keys: Seq<Seq<char>>, vals: Seq<Seq<char>>, i: int) -> Seq<
    char,
>
    decreases t.len() - i,
{
    if i < 0 || i >= t.len() {
        Seq::empty()
    } else {
        match first_key(t, keys, i, 0) {
            Some(k) => {
                proof {
                    lemma_first_key(t, keys, i, 0);
                }
                vals[k] + fill_from(t, keys, vals, i + keys[k].len())
            },
            None => seq![t[i]] + fill_from(t, keys, vals, i + 1),
        }
    }
}

/// The template's placeholders.
pub open spec fn page_keys() -> Seq<Seq<char>> {
    seq![
        "__CONTENT__"@,
        "__FILENAME__"@,
        "__MERMAID_SRC__"@,
        "__WORD_COUNT__"@,
        "__READ_TIME__"@,
        "__VERSION__"@,
    ]
}

/// The page for a Markdown text with the given HTML body, file name, Mermaid
/// source, word count, reading time and version: the template with each
/// placeholder replaced by its value (the file name HTML-escaped, the numbers
/// in decimal), in one pass, so that no value is rewritten by another.
pub open spec fn page_spec(
    content: Seq<char>,
    filename: Seq<char>,
    mermaid: Seq<char>,
    words: nat,
    minutes: nat,
    version: Seq<char>,
) -> Seq<char> {
    fill_from(
        html_template(),
        page_keys(),
        seq![content, escape_text(filename), mermaid, decimal(words), decimal(minutes), version],
        0,
    )
}

/// No non-empty key of `keys` occurs in `t` overlapping `[i, i + n)`.
pub open spec fn no_key_over(t: Seq<char>, keys: Seq<Seq<char>>, i: int, n: int) -> bool {
    forall|k: int, u: int|
        0 <= k < keys.len() && keys[k].len() > 0 && #[trigger] occurs_at(t, keys[k], u) ==> u
            + keys[k].len() <= i || u >= i + n
}

proof fn lemma_fill_copies(t: Seq<char>, keys: Seq<Seq<char>>, vals: Seq<Seq<char>>, j: int, m: int)
    requires
        0 <= j,
        0 <= m,
        j + m <= t.len(),
        forall|k: int, u: int|
            0 <= k < keys.len() && keys[k].len() > 0 && j <= u < j + m ==> !#[trigger] occurs_at(
                t,
                keys[k],
                u,
            ),
    ensures
        fill_from(t, keys, vals, j) == t.subrange(j, j + m) + fill_from(t, keys, vals, j + m),
    decreases m,
{
    if m == 0 {
        assert(fill_from(t, keys, vals, j) =~= t.subrange(j, j) + fill_from(t, keys, vals, j));
    } else {
        lemma_first_key(t, keys, j, 0);
        if let Some(k) = first_key(t, keys, j, 0) {
            assert(!occurs_at(t, keys[k], j));
        }
        lemma_fill_copies(t, keys, vals, j + 1, m - 1);
        assert(seq![t[j]] + t.subrange(j + 1, j + m) =~= t.subrange(j, j + m));
        assert(fill_from(t, keys, vals, j) =~= t.subrange(j, j + m) + fill_from(
            t,
            keys,
            vals,
            j + m,
        ));
    }
}

/// Filling keeps the template's text outside its keys: a piece `x` of `t`
/// at `i` that no key overlaps is found in the filled text.
pub proof fn lemma_fill_keeps(
    t: Seq<char>,
    keys: Seq<Seq<char>>,
    vals: Seq<Seq<char>>,
    x: Seq<char>,
    i: int,
)
    requires
        keys.len() == vals.len(),
        x.len() > 0,
        occurs_at(t, x, i),
        no_key_over(t, keys, i, x.len() as int),
    ensures
        contains(fill_from(t, keys, vals, 0), x),
{
    lemma_fill_keeps_from(t, keys, vals, x, i, 0);
}

proof fn lemma_fill_keeps_from(
    t: Seq<char>,
    keys: Seq<Seq<char>>,
    vals: Seq<Seq<char>>,
    x: Seq<char>,
    i: int,
    j: int,
)
    requires
        keys.len() == vals.len(),
        x.len() > 0,
        occurs_at(t, x, i),
        no_key_over(t, keys, i, x.len() as int),
        0 <= j <= i,
    ensures
        contains(fill_from(t, keys, vals, j), x),
    decreases i - j,
{
    let r = fill_from(t, keys, vals, j);
    lemma_first_key(t, keys, j, 0);
    if j < i {
        match first_key(t, keys, j, 0) {
            Some(k) => {
                assert(occurs_at(t, keys[k], j));
                lemma_fill_keeps_from(t, keys, vals, x, i, j + keys[k].len());
                let r2 = fill_from(t, keys, vals, j + keys[k].len());
                assert(r == vals[k] + r2);
                lemma_find_from(r2, x, 0);
                let p = find_from(r2, x, 0).unwrap();
                lemma_occurs_in_middle(vals[k], r2, Seq::empty(), x, p);
                assert(vals[k] + r2 + Seq::<char>::empty() =~= r);
                lemma_occurs_contains(r, x, vals[k].len() + p);
            },
            None => {
                lemma_fill_keeps_from(t, keys, vals, x, i, j + 1);
                let r2 = fill_from(t, keys, vals, j + 1);
                assert(r == seq![t[j]] + r2);
                lemma_find_from(r2, x, 0);
                let p = find_from(r2, x, 0).unwrap();
                lemma_occurs_in_middle(seq![t[j]], r2, Seq::empty(), x, p);
                assert(seq![t[j]] + r2 + Seq::<char>::empty() =~= r);
                lemma_occurs_contains(r, x, 1 + p);
            },
        }
    } else {
        assert forall|k: int, u: int|
            0 <= k < keys.len() && keys[k].len() > 0 && i <= u < i + x.len() implies !#[trigger] occurs_at(
            t,
            keys[k],
            u,
        ) by {
            if occurs_at(t, keys[k], u) {
                assert(u + keys[k].len() <= i || u >= i + x.len());
            }
        }
        lemma_fill_copies(t, keys, vals, i, x.len() as int);
        assert(r.subrange(0, x.len() as int) =~= t.subrange(i, i + x.len()));
        lemma_occurs_contains(r, x, 0);
    }
}

/// The page keeps the template's text outside its placeholders: any piece of
/// the template that no placeholder overlaps is found in the page, whatever
/// the values put in.
pub proof fn lemma_page_keeps_template(
    content: Seq<char>,
    filename: Seq<char>,
    mermaid: Seq<char>,
    words: nat,
    minutes: nat,
    version: Seq<char>,
    x: Seq<char>,
    i: int,
)
    requires
        x.len() > 0,
        occurs_at(html_template(), x, i),
        no_key_over(html_template(), page_keys(), i, x.len() as int),
    ensures
        contains(page_spec(content, filename, mermaid, words, minutes, version), x),
{
    lemma_fill_keeps(
        html_template(),
        page_keys(),
        seq![content, escape_text(filename), mermaid, decimal(words), decimal(minutes), version],
        x,
        i,
    );
}

/// Where the scan of the template stands at key `k`, and no key starts
/// before that point, the value of key `k` is written after the text before
/// it, and the scan goes on after the key.
pub proof fn lemma_fill_at_key(
    t: Seq<char>,
    keys: Seq<Seq<char>>,
    vals: Seq<Seq<char>>,
    a: Seq<char>,
    k: int,
)
    requires
        keys.len() == vals.len(),
        0 <= k < keys.len(),
        keys[k].len() > 0,
        occurs_at(t, keys[k], a.len() as int),
        t.subrange(0, a.len() as int) == a,
        first_key(t, keys, a.len() as int, 0) == Some(k),
        no_key_over(t, keys, 0, a.len() as int),
    ensures
        fill_from(t, keys, vals, 0) == a + vals[k] + fill_from(
            t,
            keys,
            vals,
            (a.len() + keys[k].len()) as int,
        ),
{
    assert forall|j: int, u: int|
        0 <= j < keys.len() && keys[j].len() > 0 && 0 <= u < 0 + a.len() implies !#[trigger] occurs_at(
        t,
        keys[j],
        u,
    ) by {}
    lemma_fill_copies(t, keys, vals, 0, a.len() as int);
    let i = a.len() as int;
    assert(i < t.len());
    assert(fill_from(t, keys, vals, i) == vals[k] + fill_from(t, keys, vals, i + keys[k].len()));
}

/// Each placeholder of the page is replaced by its own value: the body for
/// `__CONTENT__`, the escaped file name for `__FILENAME__`, the Mermaid source
/// for `__MERMAID_SRC__`, the word count and the reading time in decimal for
/// `__WORD_COUNT__` and `__READ_TIME__`, and the version for `__VERSION__`.
/// Where the template is some text `a` free of placeholders followed by
/// placeholder `k`, the page starts with `a` followed by that value.
pub proof fn lemma_page_values(
    content: Seq<char>,
    filename: Seq<char>,
    mermaid: Seq<char>,
    words: nat,
    minutes: nat,
    version: Seq<char>,
    a: Seq<char>,
    k: int,
)
    requires
        0 <= k < 6,
        occurs_at(html_template(), page_keys()[k], a.len() as int),
        html_template().subrange(0, a.len() as int) == a,
        no_key_over(html_template(), page_keys(), 0, a.len() as int),
    ensures
        page_spec(content, filename, mermaid, words, minutes, version).subrange(
            0,
            a.len() as int,
        ) == a,
        k == 0 ==> page_spec(content, filename, mermaid, words, minutes, version).subrange(
            a.len() as int,
            (a.len() + content.len()) as int,
        ) == content,
        k == 1 ==> page_spec(content, filename, mermaid, words, minutes, version).subrange(
            a.len() as int,
            (a.len() + escape_text(filename).len()) as int,
        ) == escape_text(filename),
        k == 2 ==> page_spec(content, filename, mermaid, words, minutes, version).subrange(
            a.len() as int,
            (a.len() + mermaid.len()) as int,
        ) == mermaid,
        k == 3 ==> page_spec(content, filename, mermaid, words, minutes, version).subrange(
            a.len() as int,
            (a.len() + decimal(words).len()) as int,
        ) == decimal(words),
        k == 4 ==> page_spec(content, filename, mermaid, words, minutes, version).subrange(
            a.len() as int,
            (a.len() + decimal(minutes).len()) as int,
        ) == decimal(minutes),
        k == 5 ==> page_spec(content, filename, mermaid, words, minutes, version).subrange(
            a.len() as int,
            (a.len() + version.len()) as int,
        ) == version,
{
    let t = html_template();
    let keys = page_keys();
    let vals = seq![content, escape_text(filename), mermaid, decimal(words), decimal(minutes), version];
    let i = a.len() as int;
    reveal_strlit("__CONTENT__");
    reveal_strlit("__FILENAME__");
    reveal_strlit("__MERMAID_SRC__");
    reveal_strlit("__WORD_COUNT__");
    reveal_strlit("__READ_TIME__");
    reveal_strlit("__VERSION__");
    assert forall|j: int| 0 <= j < 6 && occurs_at(t, #[trigger] keys[j], i) implies j == k by {
        lemma_occurs_char(t, keys[j], i, 2);
        lemma_occurs_char(t, keys[k], i, 2);
    }
    assert(first_key(t, keys, i, 0) == Some(k)) by {
        reveal_with_fuel(first_key, 7);
    }
    lemma_fill_at_key(t, keys, vals, a, k);
    let p = page_spec(content, filename, mermaid, words, minutes, version);
    let rest = fill_from(t, keys, vals, (i + keys[k].len()) as int);
    assert(p == a + vals[k] + rest);
    assert(p.subrange(0, i) =~= a);
    assert(p.subrange(i, i + vals[k].len()) =~= vals[k]);
}

/// The character views of a list of character vectors.
pub open spec fn vec_views(v: Seq<Vec<char>>) -> Seq<Seq<char>> {
    v.map_values(|x: Vec<char>| x@)
}

/// The first key that is non-empty and occurs in `t` at index `i`.
fn first_key_at(t: &Vec<char>, keys: &Vec<Vec<char>>, i: usize) -> (r: Option<usize>)
    ensures
        r matches Some(k) ==> first_key(t@, vec_views(keys@), i as int, 0) == Some(k as int),
        r is None ==> first_key(t@, vec_views(keys@), i as int, 0) is None,
{
    let ghost ks = vec_views(keys@);
    let mut j: usize = 0;
    while j < keys.len()
        invariant
            j <= keys.len(),
            ks == vec_views(keys@),
            ks.len() == keys.len(),
            first_key(t@, ks, i as int, 0) == first_key(t@, ks, i as int, j as int),
        decreases keys.len() - j,
    {
        assert(ks[j as int] == keys[j as int]@);
        if keys[j].len() > 0 && matches_at(t, &keys[j], i) {
            return Some(j);
        }
        j = j + 1;
    }
    None
}

/// Fills the template `t` in one pass: each key is replaced by the value at
/// the same index.
pub fn fill_template(t: &Vec<char>, keys: &Vec<Vec<char>>, vals: &Vec<Vec<char>>) -> (r: Vec<char>)
    requires
        keys.len() == vals.len(),
    ensures
        r@ == fill_from(t@, vec_views(keys@), vec_views(vals@), 0),
{
    let ghost ks = vec_views(keys@);
    let ghost vs = vec_views(vals@);
    let mut out: Vec<char> = Vec::new();
    let mut i: usize = 0;
    while i < t.len()
        invariant
            i <= t.len(),
            ks == vec_views(keys@),
            vs == vec_views(vals@),
            ks.len() == keys.len(),
            vs.len() == vals.len(),
            keys.len() == vals.len(),
            out@ + fill_from(t@, ks, vs, i as int) == fill_from(t@, ks, vs, 0),
        decreases t.len() - i,
    {
        let ghost before = out@;
        proof {
            lemma_first_key(t@, ks, i as int, 0);
        }
        match first_key_at(t, keys, i) {
            Some(k) => {
                assert(ks[k as int] == keys[k as int]@);
                assert(vs[k as int] == vals[k as int]@);
                push_all(&mut out, &vals[k]);
                assert(out@ + fill_from(t@, ks, vs, i + keys@[k as int].len()) =~= before + fill_from(
                    t@,
                    ks,
                    vs,
                    i as int,
                ));
                i = i + keys[k].len();
            },
            None => {
                out.push(t[i]);
                assert(out@ + fill_from(t@, ks, vs, i + 1) =~= before + fill_from(
                    t@,
                    ks,
                    vs,
                    i as int,
                ));
                i = i + 1;
            },
        }
    }
    assert(out@ =~= out@ + fill_from(t@, ks, vs, i as int));
    out
}

/// Builds the complete HTML page for the Markdown text `raw` of the file
/// `filename`, loading Mermaid from `mermaid_src`, with the program's version.
pub fn build_page(raw: &str, filename: &str, mermaid_src: &str, version: &str) -> (page: String)
    ensures
        page@ == page_spec(
            render_html(raw@),
            filename@,
            mermaid_src@,
            text_word_count(raw@),
            ((text_word_count(raw@) + 199) / 200) as nat,
            version@,
        ),
{
    let (html, words) = render(raw);
    let minutes = read_time(words);
    let mut page: Vec<char> = Vec::new();
    push_template(&mut page);
    let mut keys: Vec<Vec<char>> = Vec::new();
    keys.push(chars_of("__CONTENT__"));
    keys.push(chars_of("__FILENAME__"));
    keys.push(chars_of("__MERMAID_SRC__"));
    keys.push(chars_of("__WORD_COUNT__"));
    keys.push(chars_of("__READ_TIME__"));
    keys.push(chars_of("__VERSION__"));
    let mut w: Vec<char> = Vec::new();
    push_decimal(&mut w, words);
    let mut m: Vec<char> = Vec::new();
    push_decimal(&mut m, minutes);
    let mut vals: Vec<Vec<char>> = Vec::new();
    vals.push(chars_of(html.as_str()));
    vals.push(chars_of(html_escape(filename).as_str()));
    vals.push(chars_of(mermaid_src));
    vals.push(w);
    vals.push(m);
    vals.push(chars_of(version));
    assert(vec_views(keys@) =~= page_keys());
    assert(vec_views(vals@) =~= seq![
        render_html(raw@),
        escape_text(filename@),
        mermaid_src@,
        decimal(words as nat),
        decimal(minutes as nat),
        version@,
    ]);
    let filled = fill_template(&page, &keys, &vals);
    string_of(&filled)
}

} // verus!
