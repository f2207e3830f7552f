use bftp::client::{
    absorb_page,
    check_file_manager_items, chunk_ranges, chunks_to_upload, completed_chunk_line, compute_block_list,
    compute_file_md5, downloadable_files, find_download_target, first_dlink, local_target_path,
    lookup_target, next_page_cursor, parse_upload_progress, pick_upload_server, resume_offset,
    summarize_scan, upload_progress_text, upload_remote_path, use_multithread, DownloadOptions,
    PartRecord,
};
use bftp::error::BftpError;
use bftp::models::{
    BaiduApiErrNoResponse, CategoryFileListResponse, FileInfo, FileListResponse, FileManagerItem,
    FileMeta, FileType, LocateUploadResponse, QueryFileInfoResponse, ServerInfo,
};
use std::collections::HashMap;

fn ok_base() -> BaiduApiErrNoResponse {
    BaiduApiErrNoResponse { errno: 0, errmsg: None }
}

fn entry(name: &str, path: &str, isdir: u32, size: u64) -> FileInfo {
    FileInfo {
        fs_id: 7,
        path: path.to_string(),
        server_filename: name.to_string(),
        size,
        server_mtime: None,
        server_ctime: None,
        local_mtime: None,
        local_ctime: None,
        isdir,
        category: FileType::Document,
        md5: None,
        dir_empty: None,
        thumbs: None,
    }
}

fn meta(dlink: &str) -> FileMeta {
    FileMeta {
        category: FileType::Video,
        dlink: dlink.to_string(),
        filename: "f".to_string(),
        isdir: 0,
        server_ctime: 0,
        server_mtime: 0,
        size: 1,
        thumbs: None,
        height: None,
        width: None,
        date_taken: None,
        orientation: None,
        media_info: None,
    }
}

#[test]
fn download_options() {
    let s = DownloadOptions::single(5);
    assert_eq!((s.num_threads, s.resume), (1, 5));
    let m = DownloadOptions::multi(3, 8);
    assert_eq!((m.num_threads, m.resume), (8, 3));
    assert!(!use_multithread(DownloadOptions::single(0), 100 << 20));
    assert!(use_multithread(DownloadOptions::multi(0, 4), 4 << 20));
    assert!(!use_multithread(DownloadOptions::multi(0, 4), (4 << 20) - 1));
    assert!(!use_multithread(DownloadOptions::multi(10, 4), 10));
}

#[test]
fn ranges_cover_the_rest_exactly() {
    for size in [1u64, 2, 7, 10, 100, 1000, 4194305] {
        for resume in [0u64, 1, 3] {
            if resume >= size {
                continue;
            }
            for n in 1usize..9 {
                let r = chunk_ranges(size, resume, n);
                assert!(r.len() <= n);
                assert_eq!(r[0].0, resume);
                for w in r.windows(2) {
                    assert_eq!(w[0].1 + 1, w[1].0);
                }
                assert_eq!(r.last().unwrap().1, size - 1);
            }
        }
    }
    assert_eq!(chunk_ranges(10, 0, 3), vec![(0, 3), (4, 7), (8, 9)]);
    assert_eq!(chunk_ranges(10, 0, 4), vec![(0, 2), (3, 5), (6, 8), (9, 9)]);
    assert_eq!(chunk_ranges(4, 0, 3), vec![(0, 1), (2, 3)]);
}

#[test]
fn resume_choices() {
    assert_eq!(resume_offset(PartRecord::Recorded(40), Some(100), 100), (40, false));
    assert_eq!(resume_offset(PartRecord::Recorded(100), None, 100), (100, true));
    assert_eq!(resume_offset(PartRecord::Recorded(150), None, 100), (100, true));
    assert_eq!(resume_offset(PartRecord::Unreadable, Some(30), 100), (30, true));
    assert_eq!(resume_offset(PartRecord::Missing, Some(130), 100), (100, false));
    assert_eq!(resume_offset(PartRecord::Missing, None, 100), (0, false));
}

#[test]
fn directory_download_targets() {
    assert_eq!(local_target_path("/r/d", "/l/d", "/r/d/a/b.txt"), "/l/d/a/b.txt");
    assert_eq!(local_target_path("/r/d", "/l/d/", "/r/d/x"), "/l/d/x");
    assert_eq!(local_target_path("/other", "/l", "/r/x"), "/l/r/x");
    let entries = vec![entry("a", "/a", 1, 0), entry("b", "/b", 0, 5), entry("c", "/c", 0, 6)];
    assert_eq!(downloadable_files(&entries), vec![1, 2]);
    let s = summarize_scan(&vec![10, 20, 30], &vec![10, 5, 30]);
    assert_eq!((s.skip_count, s.skip_size, s.new_count, s.new_size), (2, 40, 1, 20));
}

#[test]
fn finding_the_file_to_download() {
    assert_eq!(lookup_target("/a/b.txt"), ("/a".to_string(), "b.txt".to_string()));
    assert_eq!(lookup_target("/"), ("/".to_string(), "".to_string()));
    let list = FileListResponse {
        base: ok_base(),
        list: Some(vec![entry("x", "/a/x", 1, 0), entry("b.txt", "/a/b.txt", 0, 9)]),
        guid: None,
    };
    assert_eq!(find_download_target(&list, "/a/b.txt", "b.txt").ok(), Some(1));
    match find_download_target(&list, "/a/x", "x") {
        Err(BftpError::Other(m)) => assert_eq!(m, "/a/x 是目录，请使用 -r 下载"),
        _ => panic!(),
    }
    match find_download_target(&list, "/a/zz", "zz") {
        Err(BftpError::Other(m)) => assert_eq!(m, "未找到远程文件: /a/zz"),
        _ => panic!(),
    }
}

#[test]
fn answers_of_the_service() {
    let metas = QueryFileInfoResponse { base: ok_base(), names: HashMap::new(), list: vec![meta("L1"), meta("L2")] };
    assert_eq!(first_dlink(&metas), Some("L1".to_string()));
    let none = QueryFileInfoResponse { base: ok_base(), names: HashMap::new(), list: vec![] };
    assert_eq!(first_dlink(&none), None);
    let page = CategoryFileListResponse { base: ok_base(), has_more: 1, cursor: 1000, list: None };
    assert_eq!(next_page_cursor(&page), Some(1000));
    let last = CategoryFileListResponse { base: ok_base(), has_more: 0, cursor: 5, list: None };
    assert_eq!(next_page_cursor(&last), None);
    let servers = LocateUploadResponse {
        error_code: 0,
        error_msg: None,
        servers: Some(vec![
            ServerInfo { server: "http://a".to_string() },
            ServerInfo { server: "https://b".to_string() },
        ]),
        request_id: None,
    };
    assert_eq!(pick_upload_server(&servers), Some("https://b".to_string()));
    let plain = LocateUploadResponse {
        error_code: 0,
        error_msg: None,
        servers: Some(vec![ServerInfo { server: "http://a".to_string() }]),
        request_id: None,
    };
    assert_eq!(pick_upload_server(&plain), Some("http://a".to_string()));
    let empty = LocateUploadResponse { error_code: 0, error_msg: None, servers: Some(vec![]), request_id: None };
    assert_eq!(pick_upload_server(&empty), None);
}

#[test]
fn file_manager_items() {
    assert!(check_file_manager_items(&None).is_ok());
    let items = Some(vec![
        FileManagerItem { errno: 0, path: Some("/a".to_string()) },
        FileManagerItem { errno: -9, path: None },
    ]);
    match check_file_manager_items(&items) {
        Err(BftpError::Other(m)) => assert_eq!(m, "文件 ? 操作失败: errno=-9"),
        _ => panic!(),
    }
}

#[test]
fn upload_targets() {
    assert_eq!(upload_remote_path("/r", "/l/a.txt", None), "/r/a.txt");
    assert_eq!(upload_remote_path("/", "/l/a.txt", None), "/a.txt");
    assert_eq!(upload_remote_path("/r", "/l/a.txt", Some("b.txt")), "/r/b.txt");
    assert_eq!(chunks_to_upload(None), vec![0]);
    assert_eq!(chunks_to_upload(Some(vec![2, 3])), vec![2, 3]);
}

#[test]
fn block_lists() {
    assert_eq!(compute_file_md5(b""), "d41d8cd98f00b204e9800998ecf8427e");
    assert_eq!(compute_file_md5(b"abc"), "900150983cd24fb0d6963f7d28e17f72");
    let (size, list, n) = compute_block_list(b"abc");
    assert_eq!(size, 3);
    assert_eq!(n, 1);
    assert_eq!(list, "[\"900150983cd24fb0d6963f7d28e17f72\"]");
    let (size, list, n) = compute_block_list(b"");
    assert_eq!((size, n), (0, 1));
    assert_eq!(list, "[\"d41d8cd98f00b204e9800998ecf8427e\"]");
    let data = vec![7u8; 4194304 + 10];
    let (size, list, n) = compute_block_list(&data);
    assert_eq!((size, n), (4194314, 2));
    let first = format!("{:x}", md5::compute(&data[..4194304]));
    let second = format!("{:x}", md5::compute(&data[4194304..]));
    assert_eq!(list, serde_json::to_string(&vec![first, second]).unwrap());
}

#[test]
fn upload_progress_file() {
    assert_eq!(parse_upload_progress(""), (None, vec![]));
    assert_eq!(parse_upload_progress("id42\n0\n 3 \nx\n7"), (Some("id42".to_string()), vec![0, 3, 7]));
    let mut text = upload_progress_text("up-1");
    for c in [0, 5, -2] {
        text.push_str(&completed_chunk_line(c));
    }
    assert_eq!(text, "up-1\n0\n5\n-2\n");
    assert_eq!(parse_upload_progress(&text), (Some("up-1".to_string()), vec![0, 5, -2]));
}

#[test]
fn recursive_listing_pages() {
    let mut all = vec![entry("a", "/a", 0, 1)];
    let page = CategoryFileListResponse { base: ok_base(), has_more: 1, cursor: 2, list: Some(vec![entry("b", "/b", 0, 2), entry("c", "/c", 1, 0)]) };
    assert_eq!(absorb_page(&mut all, page), Some(2));
    assert_eq!(all.iter().map(|f| f.path.clone()).collect::<Vec<_>>(), vec!["/a", "/b", "/c"]);
    let last = CategoryFileListResponse { base: ok_base(), has_more: 0, cursor: 9, list: None };
    assert_eq!(absorb_page(&mut all, last), None);
    assert_eq!(all.len(), 3);
}
