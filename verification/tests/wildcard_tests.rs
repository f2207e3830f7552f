use bftp::models::{BaiduApiErrNoResponse, FileInfo, FileListResponse, FileType};
use bftp::wildcard::{
    glob_match, glob_to_regex, has_wildcards, parse_wildcard_path, select_local_matches,
    select_remote_matches, LocalEntry,
};

fn remote(name: &str, isdir: u32) -> FileInfo {
    FileInfo {
        fs_id: 1,
        path: format!("/d/{}", name),
        server_filename: name.to_string(),
        size: 10,
        server_mtime: Some(0),
        server_ctime: None,
        local_mtime: None,
        local_ctime: None,
        isdir,
        category: FileType::Other,
        md5: None,
        dir_empty: None,
        thumbs: None,
    }
}

#[test]
fn wildcard_detection() {
    assert!(has_wildcards("*.txt"));
    assert!(has_wildcards("a?b"));
    assert!(has_wildcards("[ab]"));
    assert!(!has_wildcards("plain/name.txt"));
}

#[test]
fn glob_translation() {
    assert_eq!(glob_to_regex("*.txt"), "^[^/]*\\.txt$");
    assert_eq!(glob_to_regex("?"), "^[^/]$");
    assert_eq!(glob_to_regex("a[!bc]d"), "^a[^bc]d$");
    assert_eq!(glob_to_regex("a[^bc]d"), "^a[^bc]d$");
    assert_eq!(glob_to_regex("[abc"), "^[abc$");
    assert_eq!(glob_to_regex("x(1)+{2}|$"), "^x\\(1\\)\\+\\{2\\}\\|\\$$");
}

#[test]
fn glob_matching() {
    assert!(glob_match("*.txt", "a.txt"));
    assert!(!glob_match("*.txt", "a.txt.bak"));
    assert!(!glob_match("*.txt", "atxt"));
    assert!(glob_match("a?c", "abc"));
    assert!(glob_match("[ab]*", "bcd"));
    assert!(!glob_match("[!ab]*", "bcd"));
    assert!(glob_match("*", ""));
    assert!(!glob_match("[", "x"));
}

#[test]
fn wildcard_paths() {
    assert_eq!(parse_wildcard_path("*.txt", "/home", true), ("/home".to_string(), "*.txt".to_string()));
    assert_eq!(parse_wildcard_path("dir/*.txt", "/home", true), ("/home/dir".to_string(), "*.txt".to_string()));
    assert_eq!(parse_wildcard_path("/x/../y/*.log", "/home", true), ("/y".to_string(), "*.log".to_string()));
    assert_eq!(parse_wildcard_path("/x/../y/*.log", "/home", false), ("/x/../y/".to_string(), "*.log".to_string()));
    assert_eq!(parse_wildcard_path("./*.c", "/h", false), ("/h/./".to_string(), "*.c".to_string()));
    assert_eq!(parse_wildcard_path("sub/*.c", "/h", false), ("/h/sub/".to_string(), "*.c".to_string()));
    assert_eq!(parse_wildcard_path("a/b*/c", "/", true), ("/a".to_string(), "b*/c".to_string()));
}

#[test]
fn remote_selection() {
    let resp = FileListResponse {
        base: BaiduApiErrNoResponse { errno: 0, errmsg: None },
        list: Some(vec![remote("a.txt", 0), remote("b.txt", 1), remote("c.log", 0), remote("d.txt", 0)]),
        guid: None,
    };
    assert_eq!(select_remote_matches(&resp, "*.txt", false), vec!["/d/a.txt".to_string(), "/d/d.txt".to_string()]);
    assert_eq!(select_remote_matches(&resp, "*.txt", true), vec!["/d/b.txt".to_string()]);
    let empty = FileListResponse { base: BaiduApiErrNoResponse { errno: 0, errmsg: None }, list: None, guid: None };
    assert!(select_remote_matches(&empty, "*", false).is_empty());
}

#[test]
fn local_selection() {
    let entries = vec![
        LocalEntry { name: "x.tmp".to_string(), path: "/t/x.tmp".to_string(), is_file: true },
        LocalEntry { name: "y.tmp".to_string(), path: "/t/y.tmp".to_string(), is_file: false },
        LocalEntry { name: "z.rs".to_string(), path: "/t/z.rs".to_string(), is_file: true },
    ];
    assert_eq!(select_local_matches(&entries, "*.tmp", true), vec!["/t/x.tmp".to_string()]);
    assert_eq!(select_local_matches(&entries, "*.tmp", false), vec!["/t/x.tmp".to_string(), "/t/y.tmp".to_string()]);
}

#[test]
fn local_files_within_all_matches() {
    let entries = vec![
        LocalEntry { name: "a.tmp".to_string(), path: "/t/a.tmp".to_string(), is_file: false },
        LocalEntry { name: "b.tmp".to_string(), path: "/t/b.tmp".to_string(), is_file: true },
        LocalEntry { name: "c.rs".to_string(), path: "/t/c.rs".to_string(), is_file: true },
        LocalEntry { name: "d.tmp".to_string(), path: "/t/d.tmp".to_string(), is_file: true },
    ];
    let files = select_local_matches(&entries, "*.tmp", true);
    let all = select_local_matches(&entries, "*.tmp", false);
    let mut it = all.iter();
    for f in &files {
        assert!(it.any(|x| x == f));
    }
    assert_eq!(all, vec!["/t/a.tmp".to_string(), "/t/b.tmp".to_string(), "/t/d.tmp".to_string()]);
}
