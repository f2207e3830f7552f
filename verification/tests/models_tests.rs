use bftp::error::BftpError;
use bftp::models::{check_response, ApiResponse, BaiduApiErrNoResponse, FileListResponse, FileType};

#[test]
fn response_checks() {
    let ok = BaiduApiErrNoResponse { errno: 0, errmsg: None };
    assert!(ok.is_success());
    assert!(check_response(ok).is_ok());
    let bad = FileListResponse { base: BaiduApiErrNoResponse { errno: -7, errmsg: Some("no".to_string()) }, list: None, guid: None };
    assert!(!bad.is_success());
    assert_eq!(bad.error_code(), -7);
    assert_eq!(bad.error_msg(), Some("no".to_string()));
    assert_eq!(bad.error_desc(), "errno=-7, msg=Some(\"no\")");
    match check_response(bad) {
        Err(BftpError::Api { errno, errmsg }) => {
            assert_eq!(errno, -7);
            assert_eq!(errmsg, Some("no".to_string()));
        }
        _ => panic!("expected an API error"),
    }
    let plain = BaiduApiErrNoResponse { errno: 31066, errmsg: None };
    assert_eq!(plain.error_desc(), "errno=31066, msg=None");
}

#[test]
fn category_names() {
    assert_eq!(FileType::Video.display(), "视频");
    assert_eq!(FileType::Audio.display(), "音乐");
    assert_eq!(FileType::Torrent.display(), "种子");
    assert_eq!(FileType::Unknown.display(), "未知");
}
