use md_reader::install::{
    desktop_entry, install, mimeapps_with_default, mimeapps_without_default, shortcut_path,
    shortcut_script, uninstall, windows_path,
};

#[test]
fn uninstall_deletes_registry_keys() {
    let cmds = uninstall();
    assert_eq!(cmds.len(), 6);
    assert_eq!(
        cmds[0],
        vec!["delete", "HKCU\\Software\\Microsoft\\Windows\\CurrentVersion\\Uninstall\\MDReader", "/f"]
    );
    assert_eq!(
        cmds[1],
        vec!["delete", "HKCU\\Software\\Classes\\.md\\OpenWithProgids", "/v", "MDReader.Markdown", "/f"]
    );
    assert_eq!(cmds[5], vec!["delete", "HKCU\\Software\\MDReader", "/f"]);
}

#[test]
fn install_registers_associations() {
    let cmds = install("C:/Users/me/AppData/Local/MDReader", "C:/Users/me/AppData/Local/MDReader/md-reader.exe", "0.1.0");
    assert_eq!(cmds.len(), 16);
    let exe = "C:\\Users\\me\\AppData\\Local\\MDReader\\md-reader.exe";
    assert_eq!(
        cmds[1],
        vec![
            "add",
            "HKCU\\Software\\Classes\\Applications\\md-reader\\shell\\open\\command",
            "/ve",
            "/t",
            "REG_SZ",
            "/d",
            &format!("\"{exe}\" \"%1\""),
            "/f"
        ]
    );
    assert_eq!(cmds[3][6], format!("\"{exe}\",0"));
    assert_eq!(cmds[7][7], "C:\\Users\\me\\AppData\\Local\\MDReader");
    assert_eq!(cmds[9][7], format!("\"{exe}\" uninstall"));
    assert_eq!(cmds[11][7], "0.1.0");
    assert_eq!(cmds[14], vec!["add", "HKCU\\Software\\Microsoft\\Windows\\CurrentVersion\\Uninstall\\MDReader", "/v", "NoModify", "/t", "REG_DWORD", "/d", "1", "/f"]);
}

#[test]
fn uninstall_covers_every_install_key() {
    let ins = install("d", "d/e.exe", "1");
    let un = uninstall();
    for add in &ins {
        assert!(un.iter().any(|del| {
            (del.len() == 3 && (add[1] == del[1] || add[1].starts_with(&format!("{}\\", del[1]))))
                || (del.len() == 5 && add[1] == del[1] && add[3] == del[3])
        }));
    }
}

#[test]
fn windows_paths_use_backslashes() {
    assert_eq!(windows_path("C:/a/b"), "C:\\a\\b");
    assert_eq!(windows_path("plain"), "plain");
}

#[test]
fn shortcut_text() {
    assert_eq!(
        shortcut_path("C:\\Users\\me\\AppData\\Roaming"),
        "C:\\Users\\me\\AppData\\Roaming\\Microsoft\\Windows\\Start Menu\\Programs\\MD Reader.lnk"
    );
    assert_eq!(
        shortcut_script("A", "C:/x/md.exe", "C:/x"),
        "$WS = New-Object -ComObject WScript.Shell; $SC = $WS.CreateShortcut('A\\Microsoft\\Windows\\Start Menu\\Programs\\MD Reader.lnk'); $SC.TargetPath = 'C:\\x\\md.exe'; $SC.WorkingDirectory = 'C:\\x'; $SC.IconLocation = 'C:\\x\\md.exe,0'; $SC.Save()"
    );
}

#[test]
fn shortcut_script_doubles_quotes() {
    assert_eq!(
        shortcut_script("C:\\Users\\O'Brien\\AppData\\Roaming", "C:/Users/O'Brien/md.exe", "C:/Users/O'Brien"),
        "$WS = New-Object -ComObject WScript.Shell; $SC = $WS.CreateShortcut('C:\\Users\\O''Brien\\AppData\\Roaming\\Microsoft\\Windows\\Start Menu\\Programs\\MD Reader.lnk'); $SC.TargetPath = 'C:\\Users\\O''Brien\\md.exe'; $SC.WorkingDirectory = 'C:\\Users\\O''Brien'; $SC.IconLocation = 'C:\\Users\\O''Brien\\md.exe,0'; $SC.Save()"
    );
}

#[test]
fn info_plist_declares_markdown() {
    let p = md_reader::install::info_plist();
    assert!(p.contains("<string>net.daringfireball.markdown</string>"));
    assert!(p.starts_with("<?xml"));
}

#[test]
fn desktop_entry_text() {
    assert_eq!(
        desktop_entry("/opt/md-reader"),
        "[Desktop Entry]\nType=Application\nName=MD Reader\nExec=/opt/md-reader %f\nMimeType=text/markdown;\nCategories=Office;Viewer;\nTerminal=false\nNoDisplay=true\n"
    );
}

#[test]
fn default_added_after_existing_header() {
    let c = "[Default Applications]\ntext/plain=gedit.desktop\n";
    assert_eq!(
        mimeapps_with_default(c),
        Some("[Default Applications]\ntext/markdown=md-reader.desktop\n\ntext/plain=gedit.desktop\n".to_string())
    );
}

#[test]
fn default_appended_without_header() {
    assert_eq!(
        mimeapps_with_default(""),
        Some("\n[Default Applications]\ntext/markdown=md-reader.desktop\n".to_string())
    );
}

#[test]
fn default_left_alone_when_present() {
    assert_eq!(mimeapps_with_default("x=md-reader.desktop"), None);
}

#[test]
fn default_removed_line_by_line() {
    let c = "[Default Applications]\r\ntext/markdown=md-reader.desktop\r\ntext/plain=gedit.desktop\n";
    assert_eq!(mimeapps_without_default(c), "[Default Applications]\ntext/plain=gedit.desktop");
    assert_eq!(mimeapps_without_default(""), "");
    assert_eq!(mimeapps_without_default("a\n\nb\r"), "a\n\nb\r");
}

#[test]
fn reinstall_after_uninstall_registers_again() {
    for c in ["", "[Default Applications]\ntext/markdown=md-reader.desktop\n", "md-reader.desktop"] {
        let cleaned = mimeapps_without_default(c);
        assert!(!cleaned.contains("md-reader.desktop"));
        let again = mimeapps_with_default(&cleaned).unwrap();
        assert!(again.contains("md-reader.desktop"));
    }
}

#[test]
fn lines_match_std() {
    for c in ["a\r\nb\nc", "a\n", "\n\n", "x\ry\n", "md-reader.desktop\nkeep\r"] {
        let expected: Vec<&str> = c.lines().filter(|l| !l.contains("md-reader.desktop")).collect();
        assert_eq!(mimeapps_without_default(c), expected.join("\n"));
    }
}
