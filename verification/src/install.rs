//! What installing and uninstalling the reader writes: the Windows registry
//! commands and Start Menu shortcut script, and the Linux desktop entry and
//! default-application list.

use vstd::prelude::*;
use crate::markdown::{join, string_views};
use crate::text::{
    chars_of, contains, find_chars, find_chars_from, find_from, lemma_find_from,
    find, lemma_occurs_contains, lemma_occurs_in_middle, lemma_occurs_trans,
    lemma_replace_at_first, lemma_replace_char_pointwise, lemma_replace_contains_rep,
    lemma_replace_keeps,
    lemma_replace_removes_char, occurs_at, push_all, push_str, replace_all, replace_chars,
    replace_from, slice_chars, string_of,
};

verus! {

/// The character views of a list of string slices.
pub open spec fn str_views(v: Seq<&str>) -> Seq<Seq<char>> {
    v.map_values(|p: &str| p@)
}

/// The character views of a list of argument lists.
pub open spec fn commands_view(v: Seq<Vec<String>>) -> Seq<Seq<Seq<char>>> {
    v.map_values(|c: Vec<String>| string_views(c@))
}

/// Owned copies of the given strings, in order.
pub fn strings(parts: &[&str]) -> (r: Vec<String>)
    ensures
        string_views(r@) == str_views(parts@),
{
    let mut r: Vec<String> = Vec::new();
    for i in 0..parts.len()
        invariant
            r@.len() == i,
            string_views(r@) == str_views(parts@.take(i as int)),
    {
        let ghost prev = r@;
        let p = parts[i];
        let owned = String::from_str(p);
        r.push(owned);
        assert(parts@.take(i + 1) == parts@.take(i as int).push(p));
        assert forall|j: int| 0 <= j < i + 1 implies #[trigger] string_views(r@)[j] == str_views(
            parts@.take(i + 1),
        )[j] by {
            if j < i {
                assert(string_views(prev)[j] == str_views(parts@.take(i as int))[j]);
            }
        }
        assert(string_views(r@) =~= str_views(parts@.take(i + 1)));
    }
    assert(parts@.take(parts@.len() as int) =~= parts@);
    r
}

// ── Windows ─────────────────────────────────────────────────────────────────

/// The registry key of the Control Panel uninstall entry.
pub const UNINSTALL_KEY: &'static str = "HKCU\\Software\\Microsoft\\Windows\\CurrentVersion\\Uninstall\\MDReader";

/// The `reg` argument lists that remove the reader's registry entries: the
/// Control Panel entry, the `.md` and `.markdown` associations, the ProgID,
/// the application key and the install path key.
pub open spec fn uninstall_commands() -> Seq<Seq<Seq<char>>> {
    seq![
        str_views(seq!["delete", UNINSTALL_KEY, "/f"]),
        str_views(seq!["delete", "HKCU\\Software\\Classes\\.md\\OpenWithProgids", "/v", "MDReader.Markdown", "/f"]),
        str_views(seq!["delete", "HKCU\\Software\\Classes\\.markdown\\OpenWithProgids", "/v", "MDReader.Markdown", "/f"]),
        str_views(seq!["delete", "HKCU\\Software\\Classes\\MDReader.Markdown", "/f"]),
        str_views(seq!["delete", "HKCU\\Software\\Classes\\Applications\\md-reader", "/f"]),
        str_views(seq!["delete", "HKCU\\Software\\MDReader", "/f"]),
    ]
}

/// The `reg` argument lists that unregister the reader on Windows, in the
/// order they are run.
pub fn uninstall() -> (cmds: Vec<Vec<String>>)
    ensures
        commands_view(cmds@) == uninstall_commands(),
{
    let mut cmds: Vec<Vec<String>> = Vec::new();
    cmds.push(strings(&["delete", UNINSTALL_KEY, "/f"]));
    cmds.push(strings(&["delete", "HKCU\\Software\\Classes\\.md\\OpenWithProgids", "/v", "MDReader.Markdown", "/f"]));
    cmds.push(strings(&["delete", "HKCU\\Software\\Classes\\.markdown\\OpenWithProgids", "/v", "MDReader.Markdown", "/f"]));
    cmds.push(strings(&["delete", "HKCU\\Software\\Classes\\MDReader.Markdown", "/f"]));
    cmds.push(strings(&["delete", "HKCU\\Software\\Classes\\Applications\\md-reader", "/f"]));
    cmds.push(strings(&["delete", "HKCU\\Software\\MDReader", "/f"]));
    assert(commands_view(cmds@) =~= uninstall_commands());
    cmds
}


/// A path in Windows form: each `/` turned into `\`.
pub open spec fn windows_path_spec(p: Seq<char>) -> Seq<char> {
    replace_all(p, seq!['/'], seq!['\\'])
}

/// Turns each `/` of a path into `\`.
pub fn windows_path(p: &str) -> (r: String)
    ensures
        r@ == windows_path_spec(p@),
{
    let v = chars_of(p);
    let slash: Vec<char> = vec!['/'];
    let back: Vec<char> = vec!['\\'];
    assert(slash@ =~= seq!['/']);
    assert(back@ =~= seq!['\\']);
    string_of(&replace_chars(&v, &slash, &back))
}

/// Putting a path in Windows form turns each `/` into `\` and changes
/// nothing else: the path keeps its length and every other character.
pub proof fn lemma_windows_path_pointwise(p: Seq<char>)
    ensures
        windows_path_spec(p).len() == p.len(),
        forall|i: int|
            0 <= i < p.len() ==> #[trigger] windows_path_spec(p)[i] == (if p[i] == '/' {
                '\\'
            } else {
                p[i]
            }),
{
    lemma_replace_char_pointwise(p, '/', '\\', 0);
    assert forall|i: int| 0 <= i < p.len() implies #[trigger] windows_path_spec(p)[i] == (if p[i]
        == '/' {
        '\\'
    } else {
        p[i]
    }) by {
        assert(p[0 + i] == p[i]);
    }
}

/// A path in Windows form holds no `/`.
pub proof fn lemma_windows_path_has_no_slash(p: Seq<char>)
    ensures
        forall|i: int| 0 <= i < windows_path_spec(p).len() ==> #[trigger] windows_path_spec(p)[i] != '/',
{
    lemma_replace_removes_char(p, '/', seq!['\\'], 0);
}

/// `"exe"`: the program's path in double quotes.
pub open spec fn quoted(exe: Seq<char>) -> Seq<char> {
    seq!['"'] + exe + seq!['"']
}

/// The command that opens a file: `"exe" "%1"`.
pub open spec fn open_command(exe: Seq<char>) -> Seq<char> {
    quoted(exe) + " \"%1\""@
}

/// The icon reference: `"exe",0`.
pub open spec fn icon_ref(exe: Seq<char>) -> Seq<char> {
    quoted(exe) + ",0"@
}

/// The command that uninstalls: `"exe" uninstall`.
pub open spec fn uninstall_string(exe: Seq<char>) -> Seq<char> {
    quoted(exe) + " uninstall"@
}

/// The `reg` argument lists that register the reader installed in `dir` as
/// the program `exe` (both in Windows form) of version `version`: the
/// application key and its open command, the `MDReader.Markdown` ProgID with
/// its icon and open command, the `.md` and `.markdown` associations, the
/// install path, and the Control Panel uninstall entry.
pub open spec fn install_commands(exe: Seq<char>, dir: Seq<char>, version: Seq<char>) -> Seq<
    Seq<Seq<char>>,
> {
    let app = "HKCU\\Software\\Classes\\Applications\\md-reader"@;
    seq![
        seq!["add"@, app, "/ve"@, "/t"@, "REG_SZ"@, "/d"@, "MD Reader"@, "/f"@],
        seq!["add"@, "HKCU\\Software\\Classes\\Applications\\md-reader\\shell\\open\\command"@, "/ve"@, "/t"@, "REG_SZ"@, "/d"@, open_command(exe), "/f"@],
        seq!["add"@, "HKCU\\Software\\Classes\\MDReader.Markdown"@, "/ve"@, "/t"@, "REG_SZ"@, "/d"@, "MD Reader Markdown Document"@, "/f"@],
        seq!["add"@, "HKCU\\Software\\Classes\\MDReader.Markdown\\DefaultIcon"@, "/ve"@, "/t"@, "REG_SZ"@, "/d"@, icon_ref(exe), "/f"@],
        seq!["add"@, "HKCU\\Software\\Classes\\MDReader.Markdown\\shell\\open\\command"@, "/ve"@, "/t"@, "REG_SZ"@, "/d"@, open_command(exe), "/f"@],
        seq!["add"@, "HKCU\\Software\\Classes\\.md\\OpenWithProgids"@, "/v"@, "MDReader.Markdown"@, "/t"@, "REG_NONE"@, "/d"@, ""@, "/f"@],
        seq!["add"@, "HKCU\\Software\\Classes\\.markdown\\OpenWithProgids"@, "/v"@, "MDReader.Markdown"@, "/t"@, "REG_NONE"@, "/d"@, ""@, "/f"@],
        seq!["add"@, "HKCU\\Software\\MDReader"@, "/v"@, "InstallPath"@, "/t"@, "REG_SZ"@, "/d"@, dir, "/f"@],
        seq!["add"@, UNINSTALL_KEY@, "/v"@, "DisplayName"@, "/t"@, "REG_SZ"@, "/d"@, "MD Reader"@, "/f"@],
        seq!["add"@, UNINSTALL_KEY@, "/v"@, "UninstallString"@, "/t"@, "REG_SZ"@, "/d"@, uninstall_string(exe), "/f"@],
        seq!["add"@, UNINSTALL_KEY@, "/v"@, "DisplayIcon"@, "/t"@, "REG_SZ"@, "/d"@, icon_ref(exe), "/f"@],
        seq!["add"@, UNINSTALL_KEY@, "/v"@, "DisplayVersion"@, "/t"@, "REG_SZ"@, "/d"@, version, "/f"@],
        seq!["add"@, UNINSTALL_KEY@, "/v"@, "Publisher"@, "/t"@, "REG_SZ"@, "/d"@, "MD Reader Contributors"@, "/f"@],
        seq!["add"@, UNINSTALL_KEY@, "/v"@, "InstallLocation"@, "/t"@, "REG_SZ"@, "/d"@, dir, "/f"@],
        seq!["add"@, UNINSTALL_KEY@, "/v"@, "NoModify"@, "/t"@, "REG_DWORD"@, "/d"@, "1"@, "/f"@],
        seq!["add"@, UNINSTALL_KEY@, "/v"@, "NoRepair"@, "/t"@, "REG_DWORD"@, "/d"@, "1"@, "/f"@],
    ]
}

/// `exe` in double quotes, followed by `suffix`.
fn quoted_with(exe: &str, suffix: &str) -> (r: String)
    ensures
        r@ == quoted(exe@) + suffix@,
{
    let mut out: Vec<char> = Vec::new();
    out.push('"');
    push_str(&mut out, exe);
    out.push('"');
    push_str(&mut out, suffix);
    assert(out@ =~= quoted(exe@) + suffix@);
    string_of(&out)
}

/// The `reg` argument lists that register the reader on Windows, for the
/// install directory `install_dir` and the installed program `exe_path`, in the
/// order they are run.
pub fn install(install_dir: &str, exe_path: &str, version: &str) -> (cmds: Vec<Vec<String>>)
    ensures
        commands_view(cmds@) == install_commands(
            windows_path_spec(exe_path@),
            windows_path_spec(install_dir@),
            version@,
        ),
{
    let exe = windows_path(exe_path);
    let dir = windows_path(install_dir);
    let cmd = quoted_with(exe.as_str(), " \"%1\"");
    let icon = quoted_with(exe.as_str(), ",0");
    let unins = quoted_with(exe.as_str(), " uninstall");
    let c = cmd.as_str();
    let i = icon.as_str();
    let d = dir.as_str();
    let mut cmds: Vec<Vec<String>> = Vec::new();
    cmds.push(strings(&["add", "HKCU\\Software\\Classes\\Applications\\md-reader", "/ve", "/t", "REG_SZ", "/d", "MD Reader", "/f"]));
    cmds.push(strings(&["add", "HKCU\\Software\\Classes\\Applications\\md-reader\\shell\\open\\command", "/ve", "/t", "REG_SZ", "/d", c, "/f"]));
    cmds.push(strings(&["add", "HKCU\\Software\\Classes\\MDReader.Markdown", "/ve", "/t", "REG_SZ", "/d", "MD Reader Markdown Document", "/f"]));
    cmds.push(strings(&["add", "HKCU\\Software\\Classes\\MDReader.Markdown\\DefaultIcon", "/ve", "/t", "REG_SZ", "/d", i, "/f"]));
    cmds.push(strings(&["add", "HKCU\\Software\\Classes\\MDReader.Markdown\\shell\\open\\command", "/ve", "/t", "REG_SZ", "/d", c, "/f"]));
    cmds.push(strings(&["add", "HKCU\\Software\\Classes\\.md\\OpenWithProgids", "/v", "MDReader.Markdown", "/t", "REG_NONE", "/d", "", "/f"]));
    cmds.push(strings(&["add", "HKCU\\Software\\Classes\\.markdown\\OpenWithProgids", "/v", "MDReader.Markdown", "/t", "REG_NONE", "/d", "", "/f"]));
    cmds.push(strings(&["add", "HKCU\\Software\\MDReader", "/v", "InstallPath", "/t", "REG_SZ", "/d", d, "/f"]));
    cmds.push(strings(&["add", UNINSTALL_KEY, "/v", "DisplayName", "/t", "REG_SZ", "/d", "MD Reader", "/f"]));
    cmds.push(strings(&["add", UNINSTALL_KEY, "/v", "UninstallString", "/t", "REG_SZ", "/d", unins.as_str(), "/f"]));
    cmds.push(strings(&["add", UNINSTALL_KEY, "/v", "DisplayIcon", "/t", "REG_SZ", "/d", i, "/f"]));
    cmds.push(strings(&["add", UNINSTALL_KEY, "/v", "DisplayVersion", "/t", "REG_SZ", "/d", version, "/f"]));
    cmds.push(strings(&["add", UNINSTALL_KEY, "/v", "Publisher", "/t", "REG_SZ", "/d", "MD Reader Contributors", "/f"]));
    cmds.push(strings(&["add", UNINSTALL_KEY, "/v", "InstallLocation", "/t", "REG_SZ", "/d", d, "/f"]));
    cmds.push(strings(&["add", UNINSTALL_KEY, "/v", "NoModify", "/t", "REG_DWORD", "/d", "1", "/f"]));
    cmds.push(strings(&["add", UNINSTALL_KEY, "/v", "NoRepair", "/t", "REG_DWORD", "/d", "1", "/f"]));
    assert(commands_view(cmds@) =~~= install_commands(
        windows_path_spec(exe_path@),
        windows_path_spec(install_dir@),
        version@,
    ));
    cmds
}


/// Where the Start Menu shortcut lives, under the `APPDATA` directory.
pub open spec fn shortcut_path_spec(appdata: Seq<char>) -> Seq<char> {
    appdata + "\\Microsoft\\Windows\\Start Menu\\Programs\\MD Reader.lnk"@
}

/// The path of the Start Menu shortcut, under the `APPDATA` directory.
pub fn shortcut_path(appdata: &str) -> (r: String)
    ensures
        r@ == shortcut_path_spec(appdata@),
{
    let mut out = chars_of(appdata);
    push_str(&mut out, "\\Microsoft\\Windows\\Start Menu\\Programs\\MD Reader.lnk");
    string_of(&out)
}

/// Text as it stands inside a single-quoted PowerShell string: each `'`
/// doubled.
pub open spec fn ps_quoted(s: Seq<char>) -> Seq<char> {
    replace_all(s, seq!['\''], seq!['\'', '\''])
}

/// Doubles each `'` so that the text can stand inside single quotes in
/// PowerShell.
pub fn ps_quote(s: &str) -> (r: Vec<char>)
    ensures
        r@ == ps_quoted(s@),
{
    let v = chars_of(s);
    let q: Vec<char> = vec!['\''];
    let qq: Vec<char> = vec!['\'', '\''];
    assert(q@ =~= seq!['\'']);
    assert(qq@ =~= seq!['\'', '\'']);
    replace_chars(&v, &q, &qq)
}

proof fn lemma_replace_shift(a: Seq<char>, b: Seq<char>, pat: Seq<char>, rep: Seq<char>, j: int)
    requires
        pat.len() > 0,
        0 <= j <= b.len(),
    ensures
        replace_from(a + b, pat, rep, a.len() + j) == replace_from(b, pat, rep, j),
    decreases b.len() - j,
{
    let t = a + b;
    let i = a.len() + j;
    if j < b.len() {
        if occurs_at(b, pat, j) {
            assert(t.subrange(i, i + pat.len()) =~= b.subrange(j, j + pat.len()));
            lemma_replace_shift(a, b, pat, rep, j + pat.len());
        } else {
            if occurs_at(t, pat, i) {
                assert(t.subrange(i, i + pat.len()) =~= b.subrange(j, j + pat.len()));
            }
            assert(t[i] == b[j]);
            lemma_replace_shift(a, b, pat, rep, j + 1);
        }
    }
}

proof fn lemma_ps_unquote_from(s: Seq<char>, i: int)
    requires
        0 <= i <= s.len(),
    ensures
        replace_all(replace_from(s, seq!['\''], seq!['\'', '\''], i), seq!['\'', '\''], seq!['\''])
            == s.subrange(i, s.len() as int),
    decreases s.len() - i,
{
    let q = seq!['\''];
    let qq = seq!['\'', '\''];
    if i == s.len() {
        assert(s.subrange(i, i) =~= Seq::<char>::empty());
    } else {
        lemma_ps_unquote_from(s, i + 1);
        let w2 = replace_from(s, q, qq, i + 1);
        if occurs_at(s, q, i) {
            assert(s[i] == '\'') by {
                assert(s.subrange(i, i + 1)[0] == s[i]);
            }
            let w = qq + w2;
            assert(occurs_at(w, qq, 0)) by {
                assert(w.subrange(0, 2) =~= qq);
            }
            lemma_replace_shift(qq, w2, qq, q, 0);
            assert(replace_from(w, qq, q, 0) == q + replace_from(w2, qq, q, 0));
        } else {
            assert(s.subrange(i, i + 1) =~= seq![s[i]]);
            assert(s[i] != '\'');
            let w = seq![s[i]] + w2;
            assert(!occurs_at(w, qq, 0)) by {
                if occurs_at(w, qq, 0) {
                    assert(w.subrange(0, 2)[0] == w[0]);
                }
            }
            lemma_replace_shift(seq![s[i]], w2, qq, q, 0);
            assert(replace_from(w, qq, q, 0) == seq![s[i]] + replace_from(w2, qq, q, 0));
        }
        assert(seq![s[i]] + s.subrange(i + 1, s.len() as int) =~= s.subrange(i, s.len() as int));
    }
}

/// Quoting for PowerShell loses nothing: turning each doubled `''` of the
/// quoted text back into one `'` gives the original text, so a path with
/// quotes in it reaches PowerShell as it is.
pub proof fn lemma_ps_quote_round_trip(s: Seq<char>)
    ensures
        replace_all(ps_quoted(s), seq!['\'', '\''], seq!['\'']) == s,
{
    lemma_ps_unquote_from(s, 0);
    assert(s.subrange(0, s.len() as int) =~= s);
}

/// The PowerShell script that creates the shortcut `shortcut` to the program
/// `exe` started in `dir`, with the program's icon; each path stands quoted.
pub open spec fn shortcut_script_spec(shortcut: Seq<char>, exe: Seq<char>, dir: Seq<char>) -> Seq<
    char,
> {
    "$WS = New-Object -ComObject WScript.Shell; $SC = $WS.CreateShortcut('"@ + ps_quoted(shortcut)
        + "'); $SC.TargetPath = '"@ + ps_quoted(exe) + "'; $SC.WorkingDirectory = '"@
        + ps_quoted(dir) + "'; $SC.IconLocation = '"@ + ps_quoted(exe) + ",0'; $SC.Save()"@
}

/// The PowerShell script that creates the Start Menu shortcut (under
/// `appdata`) to the program `exe_path` in the directory `exe_dir`; both paths
/// are put in Windows form.
pub fn shortcut_script(appdata: &str, exe_path: &str, exe_dir: &str) -> (r: String)
    ensures
        r@ == shortcut_script_spec(
            shortcut_path_spec(appdata@),
            windows_path_spec(exe_path@),
            windows_path_spec(exe_dir@),
        ),
{
    let shortcut = ps_quote(shortcut_path(appdata).as_str());
    let exe = ps_quote(windows_path(exe_path).as_str());
    let dir = ps_quote(windows_path(exe_dir).as_str());
    let mut out: Vec<char> = Vec::new();
    push_str(&mut out, "$WS = New-Object -ComObject WScript.Shell; $SC = $WS.CreateShortcut('");
    push_all(&mut out, &shortcut);
    push_str(&mut out, "'); $SC.TargetPath = '");
    push_all(&mut out, &exe);
    push_str(&mut out, "'; $SC.WorkingDirectory = '");
    push_all(&mut out, &dir);
    push_str(&mut out, "'; $SC.IconLocation = '");
    push_all(&mut out, &exe);
    push_str(&mut out, ",0'; $SC.Save()");
    assert(out@ =~= shortcut_script_spec(
        shortcut_path_spec(appdata@),
        windows_path_spec(exe_path@),
        windows_path_spec(exe_dir@),
    ));
    string_of(&out)
}

// ── Linux ───────────────────────────────────────────────────────────────────

/// The desktop entry that declares the reader as a viewer of Markdown files,
/// run as `exe %f`.
pub open spec fn desktop_entry_spec(exe: Seq<char>) -> Seq<char> {
    "[Desktop Entry]\nType=Application\nName=MD Reader\nExec="@ + exe
        + " %f\nMimeType=text/markdown;\nCategories=Office;Viewer;\nTerminal=false\nNoDisplay=true\n"@
}

/// The contents of `md-reader.desktop` for the installed program `exe`.
pub fn desktop_entry(exe: &str) -> (r: String)
    ensures
        r@ == desktop_entry_spec(exe@),
{
    let mut out: Vec<char> = Vec::new();
    push_str(&mut out, "[Desktop Entry]\nType=Application\nName=MD Reader\nExec=");
    push_str(&mut out, exe);
    push_str(
        &mut out,
        " %f\nMimeType=text/markdown;\nCategories=Office;Viewer;\nTerminal=false\nNoDisplay=true\n",
    );
    assert(out@ =~= desktop_entry_spec(exe@));
    string_of(&out)
}

/// The desktop file's name, which marks the reader's line in `mimeapps.list`.
pub open spec fn desktop_file() -> Seq<char> {
    "md-reader.desktop"@
}

/// The section header of default applications.
pub open spec fn default_section() -> Seq<char> {
    "[Default Applications]"@
}

/// The line that makes the reader the default for Markdown.
pub open spec fn default_entry() -> Seq<char> {
    "text/markdown=md-reader.desktop\n"@
}

/// `mimeapps.list` with the reader made the default for Markdown: `None` when
/// the list already names the reader; else the entry is put right after each
/// `[Default Applications]` header, or, without such a header, a header and the
/// entry are appended.
pub open spec fn with_default_spec(content: Seq<char>) -> Option<Seq<char>> {
    if contains(content, desktop_file()) {
        None
    } else if contains(content, default_section()) {
        Some(replace_all(content, default_section(), default_section() + seq!['\n'] + default_entry()))
    } else {
        Some(content + seq!['\n'] + default_section() + seq!['\n'] + default_entry())
    }
}

/// The new contents of `mimeapps.list` that make the reader the default for
/// Markdown, or `None` when the list needs no change.
pub fn mimeapps_with_default(content: &str) -> (r: Option<String>)
    ensures
        r matches Some(x) ==> with_default_spec(content@) == Some(x@),
        r is None ==> with_default_spec(content@) is None,
{
    let c = chars_of(content);
    let desktop = chars_of("md-reader.desktop");
    if find_chars(&c, &desktop).is_some() {
        return None;
    }
    let header = chars_of("[Default Applications]");
    let entry = chars_of("text/markdown=md-reader.desktop\n");
    let mut block = header.clone();
    block.push('\n');
    push_all(&mut block, &entry);
    assert(block@ =~= default_section() + seq!['\n'] + default_entry());
    if find_chars(&c, &header).is_some() {
        proof {
            reveal_strlit("[Default Applications]");
        }
        Some(string_of(&replace_chars(&c, &header, &block)))
    } else {
        let mut out = c.clone();
        out.push('\n');
        push_all(&mut out, &block);
        assert(out@ =~= content@ + seq!['\n'] + default_section() + seq!['\n'] + default_entry());
        Some(string_of(&out))
    }
}


/// `s` ends with `suffix`.
pub open spec fn ends_with(s: Seq<char>, suffix: Seq<char>) -> bool {
    suffix.len() <= s.len() && s.subrange(s.len() - suffix.len(), s.len() as int) == suffix
}

proof fn lemma_ends_with_last(s: Seq<char>, suffix: Seq<char>)
    requires
        ends_with(s, suffix),
        suffix.len() > 0,
    ensures
        s[s.len() - 1] == suffix[suffix.len() - 1],
{
    assert(s.subrange(s.len() - suffix.len(), s.len() as int)[suffix.len() - 1] == s[s.len() - 1]);
}

/// Every `shell\open\command` key that installing writes opens the file with
/// the program: its value is the program's path in double quotes followed by
/// ` "%1"`, so a file opened through the association is handed to the reader.
pub proof fn lemma_open_commands_pass_the_file(exe: Seq<char>, dir: Seq<char>, version: Seq<char>)
    ensures
        forall|i: int|
            0 <= i < install_commands(exe, dir, version).len() && ends_with(
                (#[trigger] install_commands(exe, dir, version)[i])[1],
                "\\shell\\open\\command"@,
            ) ==> install_commands(exe, dir, version)[i][6] == seq!['"'] + exe + seq![
                '"',
                ' ',
                '"',
                '%',
                '1',
                '"',
            ],
{
    let cmds = install_commands(exe, dir, version);
    let suffix = "\\shell\\open\\command"@;
    reveal_strlit("\\shell\\open\\command");
    reveal_strlit(" \"%1\"");
    reveal_strlit("HKCU\\Software\\Classes\\Applications\\md-reader");
    reveal_strlit("HKCU\\Software\\Classes\\MDReader.Markdown");
    reveal_strlit("HKCU\\Software\\Classes\\MDReader.Markdown\\DefaultIcon");
    reveal_strlit("HKCU\\Software\\Classes\\.md\\OpenWithProgids");
    reveal_strlit("HKCU\\Software\\Classes\\.markdown\\OpenWithProgids");
    reveal_strlit("HKCU\\Software\\MDReader");
    reveal_strlit("HKCU\\Software\\Microsoft\\Windows\\CurrentVersion\\Uninstall\\MDReader");
    assert(open_command(exe) =~= seq!['"'] + exe + seq!['"', ' ', '"', '%', '1', '"']);
    assert forall|i: int|
        0 <= i < cmds.len() && ends_with(
            (#[trigger] cmds[i])[1],
            suffix,
        ) implies cmds[i][6] == seq!['"'] + exe + seq!['"', ' ', '"', '%', '1', '"'] by {
        lemma_ends_with_last(cmds[i][1], suffix);
        assert(suffix[suffix.len() - 1] == 'd');
    }
}

/// The values that installing writes are those of the program, its folder and
/// its version: the icon entries hold the quoted program path followed by
/// `,0`, the uninstall string is the quoted path followed by ` uninstall`, the
/// install path and location are the folder, and the displayed version is
/// `version`.
pub proof fn lemma_install_values(exe: Seq<char>, dir: Seq<char>, version: Seq<char>)
    ensures
        forall|i: int|
            0 <= i < install_commands(exe, dir, version).len() && ends_with(
                (#[trigger] install_commands(exe, dir, version)[i])[1],
                "\\DefaultIcon"@,
            ) ==> install_commands(exe, dir, version)[i][6] == seq!['"'] + exe + seq!['"', ',', '0'],
        forall|i: int|
            0 <= i < install_commands(exe, dir, version).len() && (#[trigger] install_commands(
                exe,
                dir,
                version,
            )[i])[3] == "DisplayIcon"@ ==> install_commands(exe, dir, version)[i][7] == seq!['"']
                + exe + seq!['"', ',', '0'],
        forall|i: int|
            0 <= i < install_commands(exe, dir, version).len() && (#[trigger] install_commands(
                exe,
                dir,
                version,
            )[i])[3] == "UninstallString"@ ==> install_commands(exe, dir, version)[i][7] == seq!['"']
                + exe + "\" uninstall"@,
        forall|i: int|
            0 <= i < install_commands(exe, dir, version).len() && ((#[trigger] install_commands(
                exe,
                dir,
                version,
            )[i])[3] == "InstallPath"@ || install_commands(exe, dir, version)[i][3]
                == "InstallLocation"@) ==> install_commands(exe, dir, version)[i][7] == dir,
        forall|i: int|
            0 <= i < install_commands(exe, dir, version).len() && (#[trigger] install_commands(
                exe,
                dir,
                version,
            )[i])[3] == "DisplayVersion"@ ==> install_commands(exe, dir, version)[i][7] == version,
{
    let cmds = install_commands(exe, dir, version);
    reveal_strlit("\\DefaultIcon");
    reveal_strlit(",0");
    reveal_strlit(" uninstall");
    reveal_strlit("\" uninstall");
    reveal_strlit("HKCU\\Software\\Classes\\Applications\\md-reader");
    reveal_strlit("HKCU\\Software\\Classes\\Applications\\md-reader\\shell\\open\\command");
    reveal_strlit("HKCU\\Software\\Classes\\MDReader.Markdown");
    reveal_strlit("HKCU\\Software\\Classes\\MDReader.Markdown\\DefaultIcon");
    reveal_strlit("HKCU\\Software\\Classes\\MDReader.Markdown\\shell\\open\\command");
    reveal_strlit("HKCU\\Software\\Classes\\.md\\OpenWithProgids");
    reveal_strlit("HKCU\\Software\\Classes\\.markdown\\OpenWithProgids");
    reveal_strlit("HKCU\\Software\\MDReader");
    reveal_strlit("HKCU\\Software\\Microsoft\\Windows\\CurrentVersion\\Uninstall\\MDReader");
    reveal_strlit("/t");
    reveal_strlit("MDReader.Markdown");
    reveal_strlit("InstallPath");
    reveal_strlit("DisplayName");
    reveal_strlit("UninstallString");
    reveal_strlit("DisplayIcon");
    reveal_strlit("DisplayVersion");
    reveal_strlit("Publisher");
    reveal_strlit("InstallLocation");
    reveal_strlit("NoModify");
    reveal_strlit("NoRepair");
    assert(icon_ref(exe) =~= seq!['"'] + exe + seq!['"', ',', '0']);
    assert(uninstall_string(exe) =~= seq!['"'] + exe + "\" uninstall"@);
    let icon_key = "\\DefaultIcon"@;
    assert forall|i: int|
        0 <= i < cmds.len() && ends_with(
            (#[trigger] cmds[i])[1],
            icon_key,
        ) implies cmds[i][6] == seq!['"'] + exe + seq!['"', ',', '0'] by {
        lemma_ends_with_last(cmds[i][1], icon_key);
        if i != 3 {
            let k = cmds[i][1];
            assert(k.subrange(k.len() - icon_key.len(), k.len() as int)[icon_key.len() - 2] == k[k.len()
                - 2]);
        }
    }
    assert forall|i: int| 0 <= i < cmds.len() && (#[trigger] cmds[i])[3] == "DisplayIcon"@ implies cmds[i][7]
        == seq!['"'] + exe + seq!['"', ',', '0'] by {
        assert(cmds[i][3][7] == 'I');
        assert(cmds[i][3][0] == 'D');
        assert(cmds[i][3].len() == 11);
        if i != 10 {
            assert(i == 8);
            assert("DisplayName"@[7] == 'N');
        }
    }
    assert forall|i: int| 0 <= i < cmds.len() && (#[trigger] cmds[i])[3] == "UninstallString"@ implies cmds[i][7]
        == seq!['"'] + exe + "\" uninstall"@ by {
        assert(cmds[i][3][0] == 'U');
    }
    assert forall|i: int|
        0 <= i < cmds.len() && ((#[trigger] cmds[i])[3] == "InstallPath"@ || cmds[i][3]
            == "InstallLocation"@) implies cmds[i][7] == dir by {
        assert(cmds[i][3][0] == 'I');
        assert(cmds[i][3][7] == 'P' || cmds[i][3][7] == 'L');
    }
    assert forall|i: int| 0 <= i < cmds.len() && (#[trigger] cmds[i])[3] == "DisplayVersion"@ implies cmds[i][7]
        == version by {
        assert(cmds[i][3].len() == 14);
    }
}

/// Making the reader the default keeps what the list held. Without a
/// `[Default Applications]` header the list is a prefix of the new one; with
/// one, the text up to the first header is kept and the reader's entry follows
/// that header. Either way every piece of the old text that no header
/// overlaps is still found in the new one.
pub proof fn lemma_with_default_keeps_content(content: Seq<char>)
    ensures
        with_default_spec(content) matches Some(r) ==> !contains(content, default_section()) ==> (
        r.len() > content.len() && r.subrange(0, content.len() as int) == content),
        with_default_spec(content) matches Some(r) ==> contains(content, default_section()) ==> ({
            let k = find(content, default_section()).unwrap();
            let block = "[Default Applications]\ntext/markdown=md-reader.desktop\n"@;
            &&& k + block.len() <= r.len()
            &&& r.subrange(0, k) == content.subrange(0, k)
            &&& r.subrange(k, k + block.len()) == block
        }),
        with_default_spec(content) matches Some(r) ==> forall|x: Seq<char>, i: int|
            #![trigger occurs_at(content, x, i)]
            occurs_at(content, x, i) && x.len() > 0 && (forall|u: int|
                #[trigger] occurs_at(content, default_section(), u) ==> u + default_section().len()
                    <= i || u >= i + x.len()) ==> contains(r, x),
{
    let h = default_section();
    let e = default_entry();
    let rep = h + seq!['\n'] + e;
    reveal_strlit("[Default Applications]");
    reveal_strlit("text/markdown=md-reader.desktop\n");
    reveal_strlit("[Default Applications]\ntext/markdown=md-reader.desktop\n");
    assert(rep =~= "[Default Applications]\ntext/markdown=md-reader.desktop\n"@);
    if contains(content, desktop_file()) {
    } else if contains(content, h) {
        let r = replace_all(content, h, rep);
        let k = find(content, h).unwrap();
        lemma_find_from(content, h, 0);
        lemma_replace_at_first(content, h, rep, 0, k);
        let tail = replace_from(content, h, rep, k + h.len());
        assert(r == content.subrange(0, k) + rep + tail);
        assert(r.subrange(0, k) =~= content.subrange(0, k));
        assert(r.subrange(k, k + rep.len()) =~= rep);
        assert forall|x: Seq<char>, i: int|
            #![trigger occurs_at(content, x, i)]
            occurs_at(content, x, i) && x.len() > 0 && (forall|u: int|
                #[trigger] occurs_at(content, h, u) ==> u + h.len() <= i || u >= i + x.len())
            implies contains(r, x) by {
            lemma_replace_keeps(content, h, rep, x, i, 0);
        }
    } else {
        let r = content + seq!['\n'] + h + seq!['\n'] + e;
        assert(r.subrange(0, content.len() as int) =~= content);
        assert forall|x: Seq<char>, i: int|
            #![trigger occurs_at(content, x, i)]
            occurs_at(content, x, i) && x.len() > 0 implies contains(r, x) by {
            lemma_occurs_in_middle(Seq::empty(), content, seq!['\n'] + h + seq!['\n'] + e, x, i);
            assert(Seq::<char>::empty() + content + (seq!['\n'] + h + seq!['\n'] + e) =~= r);
            lemma_occurs_contains(r, x, i);
        }
    }
}

/// A line without the carriage return that ends it, if any.
pub open spec fn strip_cr(l: Seq<char>) -> Seq<char> {
    if l.len() > 0 && l.last() == '\r' {
        l.drop_last()
    } else {
        l
    }
}

/// The lines of `s` from index `pos` on (as `str::lines`): pieces ended by
/// `\n`, each without its `\n` and then without a `\r` before it; a last piece
/// without `\n` is a line as it is; there is no empty line after a final `\n`.
pub open spec fn lines_from(s: Seq<char>, pos: int) -> Seq<Seq<char>>
    decreases s.len() - pos,
{
    if pos < 0 || pos >= s.len() {
        Seq::empty()
    } else {
        match find_from(s, seq!['\n'], pos) {
            Some(k) => {
                proof {
                    lemma_find_from(s, seq!['\n'], pos);
                }
                seq![strip_cr(s.subrange(pos, k))] + lines_from(s, k + 1)
            },
            None => seq![s.subrange(pos, s.len() as int)],
        }
    }
}

/// The lines of `s`.
pub open spec fn lines(s: Seq<char>) -> Seq<Seq<char>> {
    lines_from(s, 0)
}

/// The lines that do not name the reader's desktop file, in order.
pub open spec fn keep_lines(ls: Seq<Seq<char>>) -> Seq<Seq<char>>
    decreases ls.len(),
{
    if ls.len() == 0 {
        Seq::empty()
    } else {
        (if contains(ls[0], desktop_file()) {
            Seq::empty()
        } else {
            seq![ls[0]]
        }) + keep_lines(ls.drop_first())
    }
}

/// `mimeapps.list` without the lines that name the reader, the remaining
/// lines joined with `\n`.
pub open spec fn without_default_spec(content: Seq<char>) -> Seq<char> {
    join(keep_lines(lines(content)), seq!['\n'])
}

/// The test that keeps a line of `mimeapps.list` when the reader is removed:
/// it does not name the reader's desktop file.
pub open spec fn names_no_reader(l: Seq<char>) -> bool {
    !contains(l, desktop_file())
}

/// Removing the reader keeps exactly the lines that do not name it, in their
/// order: the kept lines are the lines filtered by that test, so every line
/// that does not name the reader is still there and none that names it is.
pub proof fn lemma_keep_lines_is_filter(ls: Seq<Seq<char>>)
    ensures
        keep_lines(ls) == ls.filter(|l: Seq<char>| names_no_reader(l)),
        forall|j: int|
            0 <= j < ls.len() && names_no_reader(ls[j]) ==> #[trigger] keep_lines(ls).contains(
                ls[j],
            ),
        forall|j: int|
            0 <= j < keep_lines(ls).len() ==> names_no_reader(#[trigger] keep_lines(ls)[j]),
    decreases ls.len(),
{
    let pred = |l: Seq<char>| names_no_reader(l);
    reveal(Seq::filter);
    if ls.len() > 0 {
        lemma_keep_lines_is_filter(ls.drop_first());
        let a = seq![ls[0]];
        assert(ls =~= a + ls.drop_first());
        Seq::filter_distributes_over_add(a, ls.drop_first(), pred);
        assert(a.drop_last() =~= Seq::<Seq<char>>::empty());
        assert(Seq::<Seq<char>>::empty().filter(pred) =~= Seq::<Seq<char>>::empty());
        if pred(ls[0]) {
            assert(a.filter(pred) =~= a);
        } else {
            assert(a.filter(pred) =~= Seq::<Seq<char>>::empty());
        }
        assert(keep_lines(ls) =~= a.filter(pred) + ls.drop_first().filter(pred));
    } else {
        assert(ls.filter(pred) =~= ls);
    }
    let kept = keep_lines(ls);
    assert forall|j: int| 0 <= j < ls.len() && names_no_reader(ls[j]) implies #[trigger] kept.contains(ls[j]) by {
        ls.lemma_filter_contains(pred, j);
    }
    assert forall|j: int| 0 <= j < kept.len() implies names_no_reader(#[trigger] kept[j]) by {
        ls.lemma_filter_pred(pred, j);
    }
}

proof fn lemma_join_cons(a: Seq<char>, rest: Seq<Seq<char>>, sep: Seq<char>)
    requires
        rest.len() > 0,
    ensures
        join(seq![a] + rest, sep) == a + sep + join(rest, sep),
    decreases rest.len(),
{
    let all = seq![a] + rest;
    if rest.len() == 1 {
        assert(all.drop_last() =~= seq![a]);
        assert(all.last() == rest[0]);
        assert(join(seq![a], sep) == a);
        assert(join(all, sep) == join(all.drop_last(), sep) + sep + all.last());
        assert(join(rest, sep) == rest[0]);
        assert(join(all, sep) =~= a + sep + join(rest, sep));
    } else {
        lemma_join_cons(a, rest.drop_last(), sep);
        assert(all.drop_last() =~= seq![a] + rest.drop_last());
        assert(all.last() == rest.last());
        assert(join(all, sep) =~= a + sep + join(rest, sep));
    }
}

proof fn lemma_lines_rejoin(s: Seq<char>, pos: int)
    requires
        0 <= pos < s.len(),
        !contains(s, desktop_file()),
        forall|i: int| 0 <= i < s.len() ==> s[i] != '\r',
        s.last() != '\n',
    ensures
        lines_from(s, pos).len() > 0,
        join(lines_from(s, pos), seq!['\n']) == s.subrange(pos, s.len() as int),
        keep_lines(lines_from(s, pos)) == lines_from(s, pos),
    decreases s.len() - pos,
{
    let d = desktop_file();
    lemma_find_from(s, seq!['\n'], pos);
    match find_from(s, seq!['\n'], pos) {
        Some(k) => {
            assert(s[k] == '\n') by {
                assert(s.subrange(k, k + 1)[0] == s[k]);
            }
            assert(k < s.len() - 1);
            let line = s.subrange(pos, k);
            if line.len() > 0 {
                assert(line.last() == s[k - 1]);
            }
            assert(strip_cr(line) == line);
            lemma_lines_rejoin(s, k + 1);
            let rest = lines_from(s, k + 1);
            assert(lines_from(s, pos) == seq![line] + rest);
            lemma_join_cons(line, rest, seq!['\n']);
            assert(line + seq!['\n'] + s.subrange(k + 1, s.len() as int) =~= s.subrange(
                pos,
                s.len() as int,
            ));
            if contains(line, d) {
                lemma_find_from(line, d, 0);
                let j = find(line, d).unwrap();
                assert(s.subrange(pos + j, pos + j + d.len()) =~= line.subrange(j, j + d.len()));
                lemma_occurs_contains(s, d, pos + j);
            }
            assert((seq![line] + rest).drop_first() =~= rest);
            assert(keep_lines(seq![line] + rest) =~= seq![line] + keep_lines(rest));
        },
        None => {
            let line = s.subrange(pos, s.len() as int);
            assert(lines_from(s, pos) == seq![line]);
            if contains(line, d) {
                lemma_find_from(line, d, 0);
                let j = find(line, d).unwrap();
                assert(s.subrange(pos + j, pos + j + d.len()) =~= line.subrange(j, j + d.len()));
                lemma_occurs_contains(s, d, pos + j);
            }
            assert(seq![line].drop_first() =~= Seq::<Seq<char>>::empty());
            assert(keep_lines(seq![line]) =~= seq![line] + keep_lines(Seq::<Seq<char>>::empty()));
        },
    }
}

/// Removing the reader leaves a list that does not name it as it was: a
/// list of lines separated by `\n`, without carriage returns and without a
/// final newline, comes back unchanged.
pub proof fn lemma_without_default_keeps_other_lists(content: Seq<char>)
    requires
        !contains(content, desktop_file()),
        forall|i: int| 0 <= i < content.len() ==> content[i] != '\r',
        content.len() == 0 || content.last() != '\n',
    ensures
        without_default_spec(content) == content,
{
    if content.len() > 0 {
        lemma_lines_rejoin(content, 0);
        assert(content.subrange(0, content.len() as int) =~= content);
    } else {
        assert(lines(content) =~= Seq::<Seq<char>>::empty());
        assert(keep_lines(Seq::<Seq<char>>::empty()) =~= Seq::<Seq<char>>::empty());
    }
}

/// The character views of a list of character vectors.
pub open spec fn char_views(v: Seq<Vec<char>>) -> Seq<Seq<char>> {
    v.map_values(|l: Vec<char>| l@)
}

proof fn lemma_keep_lines_push(a: Seq<Seq<char>>, ls: Seq<Seq<char>>)
    requires
        ls.len() > 0,
    ensures
        a + keep_lines(ls) == (if contains(ls[0], desktop_file()) {
            a
        } else {
            a.push(ls[0])
        }) + keep_lines(ls.drop_first()),
{
    if contains(ls[0], desktop_file()) {
        assert(a + keep_lines(ls) =~= a + keep_lines(ls.drop_first()));
    } else {
        assert(a + keep_lines(ls) =~= a.push(ls[0]) + keep_lines(ls.drop_first()));
    }
}

/// Appends the given lines joined with `\n`.
fn push_joined_lines(out: &mut Vec<char>, ls: &Vec<Vec<char>>)
    ensures
        final(out)@ == old(out)@ + join(char_views(ls@), seq!['\n']),
{
    let ghost start = out@;
    let ghost views = char_views(ls@);
    for j in 0..ls.len()
        invariant
            views == char_views(ls@),
            out@ == start + join(views.take(j as int), seq!['\n']),
    {
        if j > 0 {
            out.push('\n');
        }
        push_all(out, &ls[j]);
        assert(views.take(j + 1).drop_last() =~= views.take(j as int));
        assert(out@ =~= start + join(views.take(j + 1), seq!['\n']));
    }
    assert(views.take(ls.len() as int) =~= views);
}

/// `mimeapps.list` with the lines that name the reader removed.
pub fn mimeapps_without_default(content: &str) -> (r: String)
    ensures
        r@ == without_default_spec(content@),
{
    let s = chars_of(content);
    let desktop = chars_of("md-reader.desktop");
    let newline: Vec<char> = vec!['\n'];
    let mut kept: Vec<Vec<char>> = Vec::new();
    let mut pos: usize = 0;
    while pos < s.len()
        invariant
            pos <= s.len(),
            desktop@ == desktop_file(),
            newline@ == seq!['\n'],
            keep_lines(lines(s@)) == char_views(kept@) + keep_lines(lines_from(s@, pos as int)),
        decreases s.len() - pos,
    {
        let ghost before = char_views(kept@);
        let ghost ls = lines_from(s@, pos as int);
        let (line, next) = match find_chars_from(&s, &newline, pos) {
            Some(k) => {
                proof {
                    lemma_find_from(s@, seq!['\n'], pos as int);
                }
                let mut line = slice_chars(&s, pos, k);
                if line.len() > 0 && line[line.len() - 1] == '\r' {
                    line.pop();
                }
                (line, k + 1)
            },
            None => (slice_chars(&s, pos, s.len()), s.len()),
        };
        proof {
            lemma_keep_lines_push(before, ls);
            assert(ls[0] =~= line@);
            assert(ls.drop_first() =~= lines_from(s@, next as int));
        }
        if find_chars(&line, &desktop).is_none() {
            kept.push(line);
            assert(char_views(kept@) =~= before.push(line@));
        }
        pos = next;
    }
    let mut out: Vec<char> = Vec::new();
    push_joined_lines(&mut out, &kept);
    proof {
        assert(keep_lines(Seq::<Seq<char>>::empty()) =~= Seq::<Seq<char>>::empty());
        assert(char_views(kept@) + Seq::<Seq<char>>::empty() =~= char_views(kept@));
    }
    string_of(&out)
}


// ── Law of the registry commands ────────────────────────────────────────────

/// `key` is `parent` itself or a key below it.
pub open spec fn key_within(key: Seq<char>, parent: Seq<char>) -> bool {
    parent.len() <= key.len() && key.take(parent.len() as int) == parent && (key.len()
        == parent.len() || key[parent.len() as int] == '\\')
}

/// The `reg delete` argument list `del` takes away what the `reg add` argument
/// list `add` wrote: it deletes the key written to or one above it, or it
/// deletes that very value of that key.
pub open spec fn undoes(del: Seq<Seq<char>>, add: Seq<Seq<char>>) -> bool {
    ||| del.len() == 3 && key_within(add[1], del[1])
    ||| del.len() == 5 && del[2] == "/v"@ && add[2] == "/v"@ && add[1] == del[1] && add[3] == del[3]
}

/// Uninstalling removes everything that installing registers: for every
/// `reg add` of the install there is a `reg delete` of the uninstall that
/// takes it away.
pub proof fn lemma_uninstall_undoes_install(exe: Seq<char>, dir: Seq<char>, version: Seq<char>)
    ensures
        forall|i: int|
            0 <= i < install_commands(exe, dir, version).len() ==> exists|j: int|
                0 <= j < uninstall_commands().len() && undoes(
                    #[trigger] uninstall_commands()[j],
                    #[trigger] install_commands(exe, dir, version)[i],
                ),
{
    let ins = install_commands(exe, dir, version);
    let un = uninstall_commands();
    reveal_strlit("HKCU\\Software\\Classes\\Applications\\md-reader");
    reveal_strlit("HKCU\\Software\\Classes\\Applications\\md-reader\\shell\\open\\command");
    reveal_strlit("HKCU\\Software\\Classes\\MDReader.Markdown");
    reveal_strlit("HKCU\\Software\\Classes\\MDReader.Markdown\\DefaultIcon");
    reveal_strlit("HKCU\\Software\\Classes\\MDReader.Markdown\\shell\\open\\command");
    let app = "HKCU\\Software\\Classes\\Applications\\md-reader"@;
    let prog = "HKCU\\Software\\Classes\\MDReader.Markdown"@;
    assert(key_within(app, app)) by {
        assert(app.take(app.len() as int) =~= app);
    }
    assert(key_within(
        "HKCU\\Software\\Classes\\Applications\\md-reader\\shell\\open\\command"@,
        app,
    )) by {
        assert("HKCU\\Software\\Classes\\Applications\\md-reader\\shell\\open\\command"@.take(
            app.len() as int,
        ) =~= app);
    }
    assert(key_within(prog, prog)) by {
        assert(prog.take(prog.len() as int) =~= prog);
    }
    assert(key_within("HKCU\\Software\\Classes\\MDReader.Markdown\\DefaultIcon"@, prog)) by {
        assert("HKCU\\Software\\Classes\\MDReader.Markdown\\DefaultIcon"@.take(prog.len() as int)
            =~= prog);
    }
    assert(key_within("HKCU\\Software\\Classes\\MDReader.Markdown\\shell\\open\\command"@, prog))
        by {
        assert("HKCU\\Software\\Classes\\MDReader.Markdown\\shell\\open\\command"@.take(
            prog.len() as int,
        ) =~= prog);
    }
    let md = "HKCU\\Software\\MDReader"@;
    assert(key_within(md, md)) by {
        assert(md.take(md.len() as int) =~= md);
    }
    let unk = UNINSTALL_KEY@;
    assert(key_within(unk, unk)) by {
        assert(unk.take(unk.len() as int) =~= unk);
    }
    assert(undoes(un[4], ins[0]));
    assert(undoes(un[4], ins[1]));
    assert(undoes(un[3], ins[2]));
    assert(undoes(un[3], ins[3]));
    assert(undoes(un[3], ins[4]));
    assert(undoes(un[1], ins[5]));
    assert(undoes(un[2], ins[6]));
    assert(undoes(un[5], ins[7]));
    assert forall|i: int| 8 <= i < 16 implies undoes(un[0], ins[i]) by {}
    assert forall|i: int| 0 <= i < ins.len() implies exists|j: int|
        0 <= j < un.len() && undoes(#[trigger] un[j], #[trigger] ins[i]) by {
        if i == 0 || i == 1 {
            assert(undoes(un[4], ins[i]));
        } else if 2 <= i <= 4 {
            assert(undoes(un[3], ins[i]));
        } else if i == 5 {
            assert(undoes(un[1], ins[i]));
        } else if i == 6 {
            assert(undoes(un[2], ins[i]));
        } else if i == 7 {
            assert(undoes(un[5], ins[i]));
        } else {
            assert(undoes(un[0], ins[i]));
        }
    }
}

// ── macOS ───────────────────────────────────────────────────────────────────

/// The bundle's `Info.plist`: the reader as the owner of Markdown documents
/// (`net.daringfireball.markdown`).
pub const INFO_PLIST: &'static str = r#"<?xml version="1.0" encoding="UTF-8"?>
<!DOCTYPE plist PUBLIC "-//Apple//DTD PLIST 1.0//EN" "http://www.apple.com/DTDs/PropertyList-1.0.dtd">
<plist version="1.0">
<dict>
    <key>CFBundleExecutable</key>
    <string>md-reader</string>
    <key>CFBundleIdentifier</key>
    <string>com.mdreader.app</string>
    <key>CFBundleName</key>
    <string>MD Reader</string>
    <key>CFBundlePackageType</key>
    <string>APPL</string>
    <key>CFBundleDocumentTypes</key>
    <array>
        <dict>
            <key>CFBundleTypeName</key>
            <string>Markdown File</string>
            <key>CFBundleTypeRole</key>
            <string>Editor</string>
            <key>LSHandlerRank</key>
            <string>Owner</string>
            <key>LSItemContentTypes</key>
            <array>
                <string>net.daringfireball.markdown</string>
            </array>
        </dict>
    </array>
</dict>
</plist>"#;

/// The contents of the application bundle's `Info.plist`.
pub fn info_plist() -> (r: String)
    ensures
        r@ == INFO_PLIST@,
{
    String::from_str(INFO_PLIST)
}

// ── Laws of the default-application list ────────────────────────────────────

proof fn lemma_entry_names_desktop()
    ensures
        occurs_at(default_entry(), desktop_file(), 14),
{
    reveal_strlit("text/markdown=md-reader.desktop\n");
    reveal_strlit("md-reader.desktop");
    assert(default_entry().subrange(14, 31) =~= desktop_file());
}

/// Making the reader the default leaves a list that names it; the list is
/// left alone exactly when it already names it.
pub proof fn lemma_with_default_names_reader(content: Seq<char>)
    ensures
        with_default_spec(content) is None <==> contains(content, desktop_file()),
        with_default_spec(content) matches Some(r) ==> contains(r, desktop_file()),
{
    lemma_entry_names_desktop();
    let h = default_section();
    let e = default_entry();
    let d = desktop_file();
    if contains(content, d) {
    } else if contains(content, h) {
        reveal_strlit("[Default Applications]");
        let rep = h + seq!['\n'] + e;
        lemma_occurs_in_middle(h + seq!['\n'], e, Seq::empty(), d, 14);
        assert(h + seq!['\n'] + e + Seq::<char>::empty() =~= rep);
        let r = replace_all(content, h, rep);
        lemma_replace_contains_rep(content, h, rep);
        let k = crate::text::find(content, h).unwrap();
        lemma_occurs_trans(r, rep, d, k, (h.len() + 1 + 14) as int);
        lemma_occurs_contains(r, d, k + h.len() + 1 + 14);
    } else {
        let front = content + seq!['\n'] + h + seq!['\n'];
        lemma_occurs_in_middle(front, e, Seq::empty(), d, 14);
        assert(front + e + Seq::<char>::empty() =~= content + seq!['\n'] + h + seq!['\n'] + e);
        lemma_occurs_contains(front + e + Seq::<char>::empty(), d, (front.len() + 14) as int);
    }
}

proof fn lemma_keep_lines_clean(ls: Seq<Seq<char>>)
    ensures
        forall|k: int|
            0 <= k < keep_lines(ls).len() ==> !contains(#[trigger] keep_lines(ls)[k], desktop_file()),
    decreases ls.len(),
{
    if ls.len() > 0 {
        lemma_keep_lines_clean(ls.drop_first());
        let head: Seq<Seq<char>> = if contains(ls[0], desktop_file()) {
            Seq::empty()
        } else {
            seq![ls[0]]
        };
        let rest = keep_lines(ls.drop_first());
        assert(keep_lines(ls) == head + rest);
        assert forall|k: int| 0 <= k < keep_lines(ls).len() implies !contains(
            #[trigger] keep_lines(ls)[k],
            desktop_file(),
        ) by {
            if k < head.len() {
                assert(keep_lines(ls)[k] == ls[0]);
            } else {
                assert(keep_lines(ls)[k] == rest[k - head.len()]);
            }
        }
    }
}

proof fn lemma_join_clean(ls: Seq<Seq<char>>, d: Seq<char>)
    requires
        d.len() > 0,
        forall|j: int| 0 <= j < d.len() ==> d[j] != '\n',
        forall|k: int| 0 <= k < ls.len() ==> !contains(#[trigger] ls[k], d),
    ensures
        !contains(join(ls, seq!['\n']), d),
    decreases ls.len(),
{
    let jn = join(ls, seq!['\n']);
    if ls.len() == 0 {
        lemma_find_from(jn, d, 0);
    } else if ls.len() == 1 {
        assert(!contains(ls[0], d));
    } else {
        let x = join(ls.drop_last(), seq!['\n']);
        let y = ls.last();
        assert(forall|k: int| 0 <= k < ls.drop_last().len() ==> ls.drop_last()[k] == ls[k]);
        lemma_join_clean(ls.drop_last(), d);
        assert(!contains(y, d)) by {
            assert(y == ls[ls.len() - 1]);
        }
        assert(jn == x + seq!['\n'] + y);
        if contains(jn, d) {
            lemma_find_from(jn, d, 0);
            let i = crate::text::find(jn, d).unwrap();
            if i + d.len() <= x.len() {
                assert(jn.subrange(i, i + d.len()) =~= x.subrange(i, i + d.len()));
                lemma_occurs_contains(x, d, i);
            } else if i >= x.len() + 1 {
                let j = i - x.len() - 1;
                assert(jn.subrange(i, i + d.len()) =~= y.subrange(j, j + d.len()));
                lemma_occurs_contains(y, d, j);
            } else {
                assert(jn[x.len() as int] == '\n');
                assert(jn.subrange(i, i + d.len())[x.len() - i] == jn[x.len() as int]);
                assert(d[x.len() - i] == '\n');
            }
        }
    }
}

/// After the reader's lines are removed, the list no longer names the reader.
pub proof fn lemma_without_default_forgets_reader(content: Seq<char>)
    ensures
        !contains(without_default_spec(content), desktop_file()),
{
    reveal_strlit("md-reader.desktop");
    lemma_keep_lines_clean(lines(content));
    lemma_join_clean(keep_lines(lines(content)), desktop_file());
}

/// Making the reader the default twice changes nothing the second time: a
/// list rewritten once already names the reader, so it is left as it is.
pub proof fn lemma_with_default_twice(content: Seq<char>)
    ensures
        with_default_spec(content) matches Some(r) ==> with_default_spec(r) is None,
{
    lemma_with_default_names_reader(content);
    if let Some(r) = with_default_spec(content) {
        lemma_with_default_names_reader(r);
    }
}

/// Uninstalling then installing again registers the reader anew: the cleaned
/// list is always changed by making the reader the default.
pub proof fn lemma_reinstall_after_uninstall(content: Seq<char>)
    ensures
        with_default_spec(without_default_spec(content)) is Some,
{
    lemma_without_default_forgets_reader(content);
}

} // verus!
