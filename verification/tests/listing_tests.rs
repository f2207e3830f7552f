use bftp::display::{
    file_list_text, format_size, format_timestamp, keyword_search_text, local_listing_text, quota_text,
    semantic_search_text, source_label, LocalStat,
};
use bftp::models::{
    BaiduApiErrNoResponse, CapacityInfoResponse, FileInfo, FileListResponse, FileType,
    SearchFileByKeywordResponse, SearchFileBySemanticResponse, SemanticData, SemanticFileInfo,
};

fn entry(name: &str, isdir: u32, size: u64, mtime: Option<u64>, category: FileType) -> FileInfo {
    FileInfo {
        fs_id: 1,
        path: format!("/p/{}", name),
        server_filename: name.to_string(),
        size,
        server_mtime: mtime,
        server_ctime: None,
        local_mtime: None,
        local_ctime: None,
        isdir,
        category,
        md5: None,
        dir_empty: None,
        thumbs: None,
    }
}

fn hit(path: &str, size: Option<u64>, content: Option<&str>, ocr: Option<&str>) -> SemanticFileInfo {
    SemanticFileInfo {
        category: FileType::Image,
        filename: "f".to_string(),
        fsid: 1,
        isdir: 0,
        parent_path: "/".to_string(),
        path: path.to_string(),
        content: content.map(|s| s.to_string()),
        pid: None,
        ocr: ocr.map(|s| s.to_string()),
        server_ctime: 0,
        server_mtime: 60,
        size,
    }
}

#[test]
fn remote_listing_lines() {
    let resp = FileListResponse {
        base: BaiduApiErrNoResponse { errno: 0, errmsg: None },
        list: Some(vec![
            entry("docs", 1, 0, Some(0), FileType::Unknown),
            entry("a.mp4", 0, 1536, None, FileType::Video),
        ]),
        guid: None,
    };
    let lines = file_list_text(&resp);
    assert_eq!(lines.len(), 2);
    assert_eq!(lines[0], format!("d {:>8} {} {} {}", "0B", "01-01 00:00", "dir     ", "docs"));
    assert_eq!(lines[1], format!("- {:>8} {} {:8} {}", format_size(1536), format_timestamp(0), "视频", "a.mp4"));
    let none = FileListResponse { base: BaiduApiErrNoResponse { errno: 0, errmsg: None }, list: None, guid: None };
    assert!(file_list_text(&none).is_empty());
}

#[test]
fn keyword_result_lines() {
    let empty = SearchFileByKeywordResponse { base: BaiduApiErrNoResponse { errno: 0, errmsg: None }, has_more: 0, list: vec![] };
    assert_eq!(keyword_search_text(&empty), vec!["(无搜索结果)".to_string()]);
    let some = SearchFileByKeywordResponse {
        base: BaiduApiErrNoResponse { errno: 0, errmsg: None },
        has_more: 1,
        list: vec![entry("n.txt", 0, 10, Some(3600), FileType::Document)],
    };
    let lines = keyword_search_text(&some);
    assert_eq!(lines, vec![
        format!("- {:>8} {} {:8} {}", "10B", "01-01 01:00", "文档", "/p/n.txt"),
        "... 更多结果未显示".to_string(),
    ]);
}

#[test]
fn semantic_result_lines() {
    let none = SearchFileBySemanticResponse {
        error_no: 0,
        error_msg: None,
        is_end: true,
        request_id: 0,
        server_time: None,
        data: None,
    };
    assert_eq!(semantic_search_text(&none), vec!["(无搜索结果)".to_string()]);
    let resp = SearchFileBySemanticResponse {
        error_no: 0,
        error_msg: None,
        is_end: true,
        request_id: 0,
        server_time: None,
        data: Some(vec![
            SemanticData {
                category: FileType::Image,
                display_type: 0,
                list: vec![hit("/a.png", Some(2048), Some("cat"), Some("")), hit("/b.png", None, None, Some("txt"))],
                source: 5,
            },
            SemanticData { category: FileType::Image, display_type: 0, list: vec![hit("/c.png", Some(1), None, None)], source: 99 },
        ]),
    };
    let lines = semantic_search_text(&resp);
    assert_eq!(lines, vec![
        format!("- {:>8} {} {:8} [{}] {}", "2.0K", "01-01 00:01", "图片", "图片OCR", "/a.png"),
        "  -> cat".to_string(),
        format!("- {:>8} {} {:8} [{}] {}", "0B", "01-01 00:01", "图片", "图片OCR", "/b.png"),
        "  -> OCR: txt".to_string(),
        format!("- {:>8} {} {:8} [{}] {}", "1B", "01-01 00:01", "图片", "未知来源", "/c.png"),
    ]);
    assert_eq!(source_label(4), "文件名");
    assert_eq!(source_label(14), "图片语义");
}

#[test]
fn quota_lines() {
    let info = CapacityInfoResponse { errno: 0, expire: true, total: 2199023255552, used: 1024, free: 0, request_id: None };
    assert_eq!(quota_text(&info), vec![
        "总空间: 2.0T".to_string(),
        "已使用: 1.0K".to_string(),
        "免费容量:   0B".to_string(),
        "注意: 7天内有容量到期".to_string(),
    ]);
    let info = CapacityInfoResponse { errno: 0, expire: false, total: 1, used: 1, free: 0, request_id: None };
    assert_eq!(quota_text(&info).len(), 3);
}

#[test]
fn local_listing_lines() {
    let entries = vec![
        LocalStat { name: "f.txt".to_string(), is_dir: false, size: 5, mtime: 0 },
        LocalStat { name: ".hidden".to_string(), is_dir: false, size: 1, mtime: 0 },
        LocalStat { name: "sub".to_string(), is_dir: true, size: 4096, mtime: 120 },
    ];
    assert_eq!(local_listing_text(&entries, false), vec![
        format!("d {:>8} {} {}", "4.0K", "01-01 00:02", "sub"),
        format!("- {:>8} {} {}", "5B", "01-01 00:00", "f.txt"),
    ]);
    assert_eq!(local_listing_text(&entries, true).len(), 3);
    assert_eq!(local_listing_text(&entries, true)[2], format!("- {:>8} {} {}", "1B", "01-01 00:00", ".hidden"));
}
