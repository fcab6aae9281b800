//! Character-level text operations on `Seq<char>` / `Vec<char>`:
//! searching, replacing, trimming, whitespace and decimal formatting.

use vstd::prelude::*;

verus! {

/// `c` is a Unicode `White_Space` character: the characters for which
/// `char::is_whitespace` holds.
pub open spec fn is_ws(c: char) -> bool {
    ||| ('\u{9}' <= c && c <= '\u{d}')
    ||| c == ' '
    ||| c == '\u{85}'
    ||| c == '\u{a0}'
    ||| c == '\u{1680}'
    ||| ('\u{2000}' <= c && c <= '\u{200a}')
    ||| c == '\u{2028}'
    ||| c == '\u{2029}'
    ||| c == '\u{202f}'
    ||| c == '\u{205f}'
    ||| c == '\u{3000}'
}

/// Executable test for Unicode whitespace.
pub fn is_whitespace(c: char) -> (b: bool)
    ensures
        b == is_ws(c),
{
    ('\u{9}' <= c && c <= '\u{d}') || c == ' ' || c == '\u{85}' || c == '\u{a0}' || c
        == '\u{1680}' || ('\u{2000}' <= c && c <= '\u{200a}') || c == '\u{2028}' || c
        == '\u{2029}' || c == '\u{202f}' || c == '\u{205f}' || c == '\u{3000}'
}

/// The characters of a string slice.
pub fn chars_of(s: &str) -> (v: Vec<char>)
    ensures
        v@ == s@,
{
    let mut v: Vec<char> = Vec::new();
    for c in it: s.chars()
        invariant
            v@ == it.seq().take(it.index() as int),
    {
        v.push(c);
    }
    v
}


/// The string made of the given characters, in order.
///
/// Trusted: `String`'s `FromIterator<&char>` (std) pushes each character in
/// turn, so the string's characters are exactly `chars`.
#[verifier::external_body]
pub(crate) fn string_of(chars: &Vec<char>) -> (s: String)
    ensures
        s@ == chars@,
{
    chars.iter().collect()
}

/// Appends the characters of `s` to `out`.
pub fn push_str(out: &mut Vec<char>, s: &str)
    ensures
        final(out)@ == old(out)@ + s@,
{
    let v = chars_of(s);
    push_all(out, &v);
}

/// Appends the characters of `v` to `out`.
pub fn push_all(out: &mut Vec<char>, v: &Vec<char>)
    ensures
        final(out)@ == old(out)@ + v@,
{
    let ghost start = out@;
    for i in 0..v.len()
        invariant
            out@ == start + v@.take(i as int),
    {
        out.push(v[i]);
        assert(v@.take(i + 1) =~= v@.take(i as int).push(v@[i as int]));
    }
    assert(v@.take(v.len() as int) =~= v@);
}

/// `pat` occurs in `s` at index `i`.
pub open spec fn occurs_at(s: Seq<char>, pat: Seq<char>, i: int) -> bool {
    0 <= i && i + pat.len() <= s.len() && s.subrange(i, i + pat.len()) == pat
}

/// The first index at or after `i` where `pat` occurs in `s`, if any.
pub open spec fn find_from(s: Seq<char>, pat: Seq<char>, i: int) -> Option<int>
    decreases s.len() + 1 - i,
{
    if i < 0 || i + pat.len() > s.len() {
        None
    } else if occurs_at(s, pat, i) {
        Some(i)
    } else {
        find_from(s, pat, i + 1)
    }
}

/// The first index where `pat` occurs in `s`, if any (as `str::find`).
pub open spec fn find(s: Seq<char>, pat: Seq<char>) -> Option<int> {
    find_from(s, pat, 0)
}

/// `pat` occurs somewhere in `s` (as `str::contains`).
pub open spec fn contains(s: Seq<char>, pat: Seq<char>) -> bool {
    find(s, pat) is Some
}

/// What `find_from` gives: the least index at or after `i` where `pat` occurs.
pub proof fn lemma_find_from(s: Seq<char>, pat: Seq<char>, i: int)
    requires
        0 <= i,
    ensures
        find_from(s, pat, i) matches Some(k) ==> i <= k && occurs_at(s, pat, k) && forall|j: int|
            i <= j < k ==> !occurs_at(s, pat, j),
        find_from(s, pat, i) is None ==> forall|j: int| i <= j ==> !occurs_at(s, pat, j),
    decreases s.len() + 1 - i,
{
    if i + pat.len() > s.len() {
    } else if occurs_at(s, pat, i) {
    } else {
        lemma_find_from(s, pat, i + 1);
    }
}

/// An occurrence shows that `pat` is contained in `s`.
pub proof fn lemma_occurs_contains(s: Seq<char>, pat: Seq<char>, i: int)
    requires
        occurs_at(s, pat, i),
    ensures
        contains(s, pat),
{
    lemma_find_from(s, pat, 0);
}

/// An occurrence inside a part of a concatenation is an occurrence in the
/// whole: `pat` occurs in `a + b + c` wherever it occurs in `b`, shifted by
/// the length of `a`.
pub proof fn lemma_occurs_in_middle(a: Seq<char>, b: Seq<char>, c: Seq<char>, pat: Seq<char>, i: int)
    requires
        occurs_at(b, pat, i),
    ensures
        occurs_at(a + b + c, pat, a.len() + i),
{
    assert((a + b + c).subrange(a.len() + i, a.len() + i + pat.len()) =~= b.subrange(
        i,
        i + pat.len(),
    ));
}

/// An occurrence of `c` inside an occurrence of `b` is an occurrence of `c`.
pub proof fn lemma_occurs_trans(a: Seq<char>, b: Seq<char>, c: Seq<char>, i: int, j: int)
    requires
        occurs_at(a, b, i),
        occurs_at(b, c, j),
    ensures
        occurs_at(a, c, i + j),
{
    assert(a.subrange(i + j, i + j + c.len()) =~= b.subrange(j, j + c.len()));
}

/// Whether `pat` occurs in `s` at index `i`.
pub fn matches_at(s: &Vec<char>, pat: &Vec<char>, i: usize) -> (b: bool)
    ensures
        b == occurs_at(s@, pat@, i as int),
{
    if i > s.len() || pat.len() > s.len() - i {
        return false;
    }
    let mut j: usize = 0;
    while j < pat.len()
        invariant
            i + pat.len() <= s.len(),
            j <= pat.len(),
            forall|k: int| 0 <= k < j ==> s@[i + k] == pat@[k],
        decreases pat.len() - j,
    {
        if s[i + j] != pat[j] {
            assert(s@.subrange(i as int, i + pat.len())[j as int] != pat@[j as int]);
            return false;
        }
        j = j + 1;
    }
    assert(s@.subrange(i as int, i + pat.len()) =~= pat@);
    true
}

/// The first index at or after `from` where `pat` occurs in `s`.
pub fn find_chars_from(s: &Vec<char>, pat: &Vec<char>, from: usize) -> (r: Option<usize>)
    ensures
        r matches Some(k) ==> find_from(s@, pat@, from as int) == Some(k as int),
        r is None ==> find_from(s@, pat@, from as int) is None,
{
    let mut i = from;
    if i > s.len() || pat.len() > s.len() - i {
        return None;
    }
    if pat.len() == 0 {
        assert(s@.subrange(i as int, i as int) =~= pat@);
        return Some(i);
    }
    while i <= s.len() - pat.len()
        invariant
            from <= i,
            0 < pat.len() <= s.len(),
            i <= s.len() - pat.len() + 1,
            find_from(s@, pat@, from as int) == find_from(s@, pat@, i as int),
        decreases s.len() - i,
    {
        if matches_at(s, pat, i) {
            return Some(i);
        }
        i = i + 1;
    }
    None
}

/// The first index where `pat` occurs in `s`.
pub fn find_chars(s: &Vec<char>, pat: &Vec<char>) -> (r: Option<usize>)
    ensures
        r matches Some(k) ==> find(s@, pat@) == Some(k as int),
        r is None ==> find(s@, pat@) is None,
{
    find_chars_from(s, pat, 0)
}

/// `s` with every occurrence of `pat` from index `i` on, taken left to right
/// without overlap, replaced by `rep` (as `str::replace` for a non-empty
/// pattern).
pub open spec fn replace_from(s: Seq<char>, pat: Seq<char>, rep: Seq<char>, i: int) -> Seq<char>
    recommends
        pat.len() > 0,
    decreases s.len() - i,
    when pat.len() > 0
{
    if i < 0 || i >= s.len() {
        Seq::empty()
    } else if occurs_at(s, pat, i) {
        rep + replace_from(s, pat, rep, i + pat.len())
    } else {
        seq![s[i]] + replace_from(s, pat, rep, i + 1)
    }
}

/// `s` with every occurrence of `pat` replaced by `rep`.
pub open spec fn replace_all(s: Seq<char>, pat: Seq<char>, rep: Seq<char>) -> Seq<char> {
    replace_from(s, pat, rep, 0)
}

/// Before the first occurrence at or after `i`, replacing copies the text; at
/// that occurrence it writes `rep`.
pub proof fn lemma_replace_at_first(s: Seq<char>, pat: Seq<char>, rep: Seq<char>, i: int, k: int)
    requires
        pat.len() > 0,
        0 <= i <= k,
        find_from(s, pat, i) == Some(k),
    ensures
        replace_from(s, pat, rep, i) == s.subrange(i, k) + rep + replace_from(
            s,
            pat,
            rep,
            k + pat.len(),
        ),
    decreases k - i,
{
    lemma_find_from(s, pat, i);
    if i == k {
        assert(s.subrange(i, k) =~= Seq::<char>::empty());
        assert(replace_from(s, pat, rep, i) =~= s.subrange(i, k) + rep + replace_from(
            s,
            pat,
            rep,
            k + pat.len(),
        ));
    } else {
        assert(!occurs_at(s, pat, i));
        assert(find_from(s, pat, i + 1) == Some(k));
        lemma_replace_at_first(s, pat, rep, i + 1, k);
        assert(seq![s[i]] + s.subrange(i + 1, k) =~= s.subrange(i, k));
        assert(replace_from(s, pat, rep, i) =~= s.subrange(i, k) + rep + replace_from(
            s,
            pat,
            rep,
            k + pat.len(),
        ));
    }
}

/// Where `pat` occurs in `s`, the replaced text contains `rep`.
pub proof fn lemma_replace_contains_rep(s: Seq<char>, pat: Seq<char>, rep: Seq<char>)
    requires
        pat.len() > 0,
        contains(s, pat),
    ensures
        occurs_at(
            replace_all(s, pat, rep),
            rep,
            find(s, pat).unwrap(),
        ),
{
    let k = find(s, pat).unwrap();
    lemma_find_from(s, pat, 0);
    lemma_replace_at_first(s, pat, rep, 0, k);
    let tail = replace_from(s, pat, rep, k + pat.len());
    assert(s.subrange(0, k).len() == k);
    assert((s.subrange(0, k) + rep + tail).subrange(k, k + rep.len()) =~= rep);
}

/// Replacing a one-character pattern by text without that character leaves
/// no such character.
pub proof fn lemma_replace_removes_char(s: Seq<char>, c: char, rep: Seq<char>, i: int)
    requires
        forall|j: int| 0 <= j < rep.len() ==> rep[j] != c,
    ensures
        forall|j: int|
            0 <= j < replace_from(s, seq![c], rep, i).len() ==> replace_from(s, seq![c], rep, i)[j]
                != c,
    decreases s.len() - i,
{
    if i < 0 || i >= s.len() {
    } else {
        let r = replace_from(s, seq![c], rep, i);
        let rest = replace_from(s, seq![c], rep, i + 1);
        lemma_replace_removes_char(s, c, rep, i + 1);
        if occurs_at(s, seq![c], i) {
            assert(r == rep + rest);
            assert forall|j: int| 0 <= j < r.len() implies r[j] != c by {
                if j < rep.len() {
                    assert(r[j] == rep[j]);
                } else {
                    assert(r[j] == rest[j - rep.len()]);
                }
            }
        } else {
            assert(s.subrange(i, i + 1) =~= seq![s[i]]);
            assert(s[i] != c);
            assert(r == seq![s[i]] + rest);
            assert forall|j: int| 0 <= j < r.len() implies r[j] != c by {
                if j > 0 {
                    assert(r[j] == rest[j - 1]);
                }
            }
        }
    }
}

/// Without an occurrence of `pat` from index `i` on, replacing copies the text.
pub proof fn lemma_replace_absent(s: Seq<char>, pat: Seq<char>, rep: Seq<char>, i: int)
    requires
        pat.len() > 0,
        0 <= i <= s.len(),
        forall|j: int| i <= j ==> !occurs_at(s, pat, j),
    ensures
        replace_from(s, pat, rep, i) == s.subrange(i, s.len() as int),
    decreases s.len() - i,
{
    if i < s.len() {
        lemma_replace_absent(s, pat, rep, i + 1);
        assert(seq![s[i]] + s.subrange(i + 1, s.len() as int) =~= s.subrange(i, s.len() as int));
    } else {
        assert(s.subrange(i, s.len() as int) =~= Seq::<char>::empty());
    }
}

/// Where no occurrence of `pat` starts in `[j, j + m)`, replacing from `j`
/// copies those `m` characters.
pub proof fn lemma_replace_copies(s: Seq<char>, pat: Seq<char>, rep: Seq<char>, j: int, m: int)
    requires
        pat.len() > 0,
        0 <= j,
        0 <= m,
        j + m <= s.len(),
        forall|u: int| j <= u < j + m ==> !occurs_at(s, pat, u),
    ensures
        replace_from(s, pat, rep, j) == s.subrange(j, j + m) + replace_from(s, pat, rep, j + m),
    decreases m,
{
    if m == 0 {
        assert(s.subrange(j, j) =~= Seq::<char>::empty());
        assert(replace_from(s, pat, rep, j) =~= s.subrange(j, j) + replace_from(s, pat, rep, j));
    } else {
        lemma_replace_copies(s, pat, rep, j + 1, m - 1);
        assert(!occurs_at(s, pat, j));
        assert(seq![s[j]] + s.subrange(j + 1, j + m) =~= s.subrange(j, j + m));
        assert(replace_from(s, pat, rep, j) =~= s.subrange(j, j + m) + replace_from(
            s,
            pat,
            rep,
            j + m,
        ));
    }
}

/// Replacing one character by another changes that character alone: the
/// text keeps its length and every other character, from index `i` on.
pub proof fn lemma_replace_char_pointwise(s: Seq<char>, a: char, b: char, i: int)
    requires
        0 <= i <= s.len(),
    ensures
        replace_from(s, seq![a], seq![b], i).len() == s.len() - i,
        forall|j: int|
            0 <= j < s.len() - i ==> #[trigger] replace_from(s, seq![a], seq![b], i)[j] == (if s[i
                + j] == a {
                b
            } else {
                s[i + j]
            }),
    decreases s.len() - i,
{
    if i < s.len() {
        lemma_replace_char_pointwise(s, a, b, i + 1);
        let r = replace_from(s, seq![a], seq![b], i);
        let rest = replace_from(s, seq![a], seq![b], i + 1);
        if s[i] == a {
            assert(s.subrange(i, i + 1) =~= seq![a]);
            assert(r == seq![b] + rest);
        } else {
            if occurs_at(s, seq![a], i) {
                assert(s.subrange(i, i + 1)[0] == s[i]);
            }
            assert(r == seq![s[i]] + rest);
        }
        assert forall|j: int| 0 <= j < s.len() - i implies #[trigger] r[j] == (if s[i + j] == a {
            b
        } else {
            s[i + j]
        }) by {
            if j > 0 {
                assert(r[j] == rest[j - 1]);
            }
        }
    }
}

/// Replacing keeps an occurrence of `x` that no occurrence of `pat` overlaps.
pub proof fn lemma_replace_keeps(
    s: Seq<char>,
    pat: Seq<char>,
    rep: Seq<char>,
    x: Seq<char>,
    i: int,
    j: int,
)
    requires
        pat.len() > 0,
        x.len() > 0,
        occurs_at(s, x, i),
        0 <= j <= i,
        forall|u: int| occurs_at(s, pat, u) ==> u + pat.len() <= i || u >= i + x.len(),
    ensures
        contains(replace_from(s, pat, rep, j), x),
    decreases i - j,
{
    let r = replace_from(s, pat, rep, j);
    if occurs_at(s, pat, j) {
        lemma_replace_keeps(s, pat, rep, x, i, j + pat.len());
        let r2 = replace_from(s, pat, rep, j + pat.len());
        assert(r == rep + r2);
        lemma_find_from(r2, x, 0);
        let k = find_from(r2, x, 0).unwrap();
        lemma_occurs_in_middle(rep, r2, Seq::empty(), x, k);
        assert(rep + r2 + Seq::<char>::empty() =~= r);
        lemma_occurs_contains(r, x, rep.len() + k);
    } else if j < i {
        lemma_replace_keeps(s, pat, rep, x, i, j + 1);
        let r2 = replace_from(s, pat, rep, j + 1);
        assert(r == seq![s[j]] + r2);
        lemma_find_from(r2, x, 0);
        let k = find_from(r2, x, 0).unwrap();
        lemma_occurs_in_middle(seq![s[j]], r2, Seq::empty(), x, k);
        assert(seq![s[j]] + r2 + Seq::<char>::empty() =~= r);
        lemma_occurs_contains(r, x, 1 + k);
    } else {
        lemma_replace_copies(s, pat, rep, i, x.len() as int);
        assert(r.subrange(0, x.len() as int) =~= s.subrange(i, i + x.len()));
        lemma_occurs_contains(r, x, 0);
    }
}

/// The characters of an occurrence are those of the pattern.
pub proof fn lemma_occurs_char(s: Seq<char>, q: Seq<char>, u: int, o: int)
    requires
        occurs_at(s, q, u),
        0 <= o < q.len(),
    ensures
        s[u + o] == q[o],
{
    assert(s.subrange(u, u + q.len())[o] == s[u + o]);
}

/// `q` is a tag-like text: it starts with `<` and has no other `<`.
pub open spec fn lead_only(q: Seq<char>) -> bool {
    q.len() > 1 && q[0] == '<' && forall|j: int| 1 <= j < q.len() ==> q[j] != '<'
}

/// Replacing does not make new occurrences of a tag-like text `q` when the
/// replacement starts with `<`, holds no `q`, and its last `<` (at `t0`) is
/// not followed by `q`'s second character; occurrences of `q` that were not
/// occurrences of `pat` must not exist to begin with.
pub proof fn lemma_replace_no_new(
    s: Seq<char>,
    pat: Seq<char>,
    rep: Seq<char>,
    q: Seq<char>,
    t0: int,
    j: int,
)
    requires
        pat.len() > 0,
        lead_only(q),
        rep.len() > 0,
        rep[0] == '<',
        !contains(rep, q),
        0 <= t0,
        t0 + 1 < rep.len(),
        rep[t0] == '<',
        rep[t0 + 1] != q[1],
        forall|u: int| t0 < u < rep.len() ==> rep[u] != '<',
        forall|u: int| occurs_at(s, q, u) ==> occurs_at(s, pat, u),
        0 <= j,
    ensures
        forall|t: int| !occurs_at(replace_from(s, pat, rep, j), q, t),
    decreases s.len() - j,
{
    let r = replace_from(s, pat, rep, j);
    if j >= s.len() {
        assert(r.len() == 0);
    } else if occurs_at(s, pat, j) {
        let r2 = replace_from(s, pat, rep, j + pat.len());
        lemma_replace_no_new(s, pat, rep, q, t0, j + pat.len());
        assert(r == rep + r2);
        assert forall|t: int| !occurs_at(r, q, t) by {
            if occurs_at(r, q, t) {
                if t >= rep.len() {
                    assert(r.subrange(t, t + q.len()) =~= r2.subrange(
                        t - rep.len(),
                        t - rep.len() + q.len(),
                    ));
                    assert(occurs_at(r2, q, t - rep.len()));
                } else if t + q.len() <= rep.len() {
                    assert(r.subrange(t, t + q.len()) =~= rep.subrange(t, t + q.len()));
                    lemma_occurs_contains(rep, q, t);
                } else {
                    assert(r.subrange(t, t + q.len())[0] == r[t]);
                    assert(rep[t] == '<');
                    if t < t0 {
                        assert(r.subrange(t, t + q.len())[t0 - t] == r[t0]);
                    } else if t == t0 {
                        assert(r.subrange(t, t + q.len())[1] == r[t0 + 1]);
                    }
                }
            }
        }
    } else {
        let r2 = replace_from(s, pat, rep, j + 1);
        lemma_replace_no_new(s, pat, rep, q, t0, j + 1);
        assert(r == seq![s[j]] + r2);
        assert forall|t: int| !occurs_at(r, q, t) by {
            if occurs_at(r, q, t) {
                if t >= 1 {
                    assert(r.subrange(t, t + q.len()) =~= r2.subrange(t - 1, t - 1 + q.len()));
                    assert(occurs_at(r2, q, t - 1));
                } else {
                    let m = q.len() as int;
                    lemma_find_from(s, pat, j + 1);
                    match find_from(s, pat, j + 1) {
                        Some(k) => {
                            if k < j + m {
                                lemma_replace_copies(s, pat, rep, j, k - j);
                                assert(replace_from(s, pat, rep, k) == rep + replace_from(
                                    s,
                                    pat,
                                    rep,
                                    k + pat.len(),
                                ));
                                assert(r[k - j] == '<');
                                assert(r.subrange(0, m)[k - j] == r[k - j]);
                            } else {
                                lemma_replace_copies(s, pat, rep, j, m);
                                assert(r.subrange(0, m) =~= s.subrange(j, j + m));
                            }
                        },
                        None => {
                            if j + m <= s.len() {
                                lemma_replace_copies(s, pat, rep, j, m);
                                assert(r.subrange(0, m) =~= s.subrange(j, j + m));
                            } else {
                                lemma_replace_copies(s, pat, rep, j, s.len() - j);
                                assert(r.len() == s.len() - j);
                            }
                        },
                    }
                }
            }
        }
    }
}

/// Replaces every occurrence of `pat` in `s` by `rep`.
pub fn replace_chars(s: &Vec<char>, pat: &Vec<char>, rep: &Vec<char>) -> (r: Vec<char>)
    requires
        pat.len() > 0,
    ensures
        r@ == replace_all(s@, pat@, rep@),
{
    let mut out: Vec<char> = Vec::new();
    let mut i: usize = 0;
    while i < s.len()
        invariant
            pat.len() > 0,
            i <= s.len(),
            out@ + replace_from(s@, pat@, rep@, i as int) == replace_all(s@, pat@, rep@),
        decreases s.len() - i,
    {
        let ghost before = out@;
        if matches_at(s, pat, i) {
            push_all(&mut out, rep);
            assert(out@ + replace_from(s@, pat@, rep@, i + pat.len()) =~= before + replace_from(
                s@,
                pat@,
                rep@,
                i as int,
            ));
            i = i + pat.len();
        } else {
            out.push(s[i]);
            assert(out@ + replace_from(s@, pat@, rep@, i + 1) =~= before + replace_from(
                s@,
                pat@,
                rep@,
                i as int,
            ));
            i = i + 1;
        }
    }
    assert(out@ =~= out@ + replace_from(s@, pat@, rep@, i as int));
    out
}


/// The characters `s[from..to]`.
pub fn slice_chars(s: &Vec<char>, from: usize, to: usize) -> (r: Vec<char>)
    requires
        from <= to <= s.len(),
    ensures
        r@ == s@.subrange(from as int, to as int),
{
    let mut r: Vec<char> = Vec::new();
    let mut i = from;
    while i < to
        invariant
            from <= i <= to <= s.len(),
            r@ == s@.subrange(from as int, i as int),
        decreases to - i,
    {
        r.push(s[i]);
        i = i + 1;
        assert(r@ =~= s@.subrange(from as int, i as int));
    }
    r
}

/// `s` without its leading whitespace.
pub open spec fn trim_start(s: Seq<char>) -> Seq<char>
    decreases s.len(),
{
    if s.len() > 0 && is_ws(s[0]) {
        trim_start(s.drop_first())
    } else {
        s
    }
}

/// `s` without its trailing whitespace.
pub open spec fn trim_end(s: Seq<char>) -> Seq<char>
    decreases s.len(),
{
    if s.len() > 0 && is_ws(s.last()) {
        trim_end(s.drop_last())
    } else {
        s
    }
}

/// `s` without leading and trailing whitespace (as `str::trim`).
pub open spec fn trim(s: Seq<char>) -> Seq<char> {
    trim_end(trim_start(s))
}

/// Removes leading and trailing whitespace.
pub fn trim_chars(s: &Vec<char>) -> (r: Vec<char>)
    ensures
        r@ == trim(s@),
{
    let mut a: usize = 0;
    assert(s@.skip(0) =~= s@);
    while a < s.len() && is_whitespace(s[a])
        invariant
            a <= s.len(),
            trim_start(s@) == trim_start(s@.skip(a as int)),
        decreases s.len() - a,
    {
        assert(s@.skip(a as int).drop_first() =~= s@.skip(a + 1));
        a = a + 1;
    }
    assert(trim_start(s@.skip(a as int)) == s@.skip(a as int));
    let mut b: usize = s.len();
    assert(s@.skip(a as int) =~= s@.subrange(a as int, b as int));
    while b > a && is_whitespace(s[b - 1])
        invariant
            a <= b <= s.len(),
            trim(s@) == trim_end(s@.subrange(a as int, b as int)),
        decreases b,
    {
        assert(s@.subrange(a as int, b as int).drop_last() =~= s@.subrange(a as int, b - 1));
        b = b - 1;
    }
    slice_chars(s, a, b)
}

/// The decimal digit character for `d` in `0..10`.
pub open spec fn digit_char(d: int) -> char {
    if d == 0 {
        '0'
    } else if d == 1 {
        '1'
    } else if d == 2 {
        '2'
    } else if d == 3 {
        '3'
    } else if d == 4 {
        '4'
    } else if d == 5 {
        '5'
    } else if d == 6 {
        '6'
    } else if d == 7 {
        '7'
    } else if d == 8 {
        '8'
    } else {
        '9'
    }
}

/// The decimal notation of `n`, without leading zeros (as `format!("{}", n)`).
pub open spec fn decimal(n: nat) -> Seq<char>
    decreases n,
{
    if n < 10 {
        seq![digit_char(n as int)]
    } else {
        decimal(n / 10) + seq![digit_char((n % 10) as int)]
    }
}

fn digit(d: usize) -> (c: char)
    requires
        d < 10,
    ensures
        c == digit_char(d as int),
{
    if d == 0 {
        '0'
    } else if d == 1 {
        '1'
    } else if d == 2 {
        '2'
    } else if d == 3 {
        '3'
    } else if d == 4 {
        '4'
    } else if d == 5 {
        '5'
    } else if d == 6 {
        '6'
    } else if d == 7 {
        '7'
    } else if d == 8 {
        '8'
    } else {
        '9'
    }
}

/// Appends the decimal notation of `n` to `out`.
pub fn push_decimal(out: &mut Vec<char>, n: usize)
    ensures
        final(out)@ == old(out)@ + decimal(n as nat),
    decreases n,
{
    if n >= 10 {
        push_decimal(out, n / 10);
    }
    out.push(digit(n % 10));
    assert(out@ =~= old(out)@ + decimal(n as nat));
}

} // verus!
