use bftp::auth::{extract_access_token, token_from_capture};
use bftp::error::BftpError;
use bftp::session::Session;

#[test]
fn token_from_callback_address() {
    match extract_access_token("https://x/cb#expires_in=2592000&access_token=121.abc-DEF&session_secret=s") {
        Ok(t) => assert_eq!(t, "121.abc-DEF"),
        Err(_) => panic!("expected a token"),
    }
    match extract_access_token("access_token=tok") {
        Ok(t) => assert_eq!(t, "tok"),
        Err(_) => panic!("expected a token"),
    }
    match extract_access_token("access_token=&access_token=second") {
        Ok(t) => assert_eq!(t, "second"),
        Err(_) => panic!("expected a token"),
    }
}

#[test]
fn missing_token() {
    match extract_access_token("https://x/cb#error=denied") {
        Err(BftpError::Auth(m)) => assert_eq!(m, "未找到access_token参数，请确保粘贴的是完整的回调地址"),
        _ => panic!("expected an authorization error"),
    }
    match extract_access_token("access_token=") {
        Err(BftpError::Auth(m)) => assert_eq!(m, "未找到access_token参数，请确保粘贴的是完整的回调地址"),
        _ => panic!("expected an authorization error"),
    }
}

#[test]
fn new_session() {
    let s = Session::new("tok".to_string(), Some("/home/me".to_string()));
    assert_eq!(s.access_token, "tok");
    assert_eq!(s.current_remote_path, "/");
    assert_eq!(s.current_local_path, "/home/me");
    let s = Session::new("t".to_string(), None);
    assert_eq!(s.current_local_path, "/");
}

#[test]
fn token_from_capture_results() {
    match token_from_capture(Some(Some("abc".to_string()))) {
        Ok(t) => assert_eq!(t, "abc"),
        Err(_) => panic!("expected a token"),
    }
    match token_from_capture(Some(Some(String::new()))) {
        Err(BftpError::Auth(m)) => assert_eq!(m, "提取到的access_token为空"),
        _ => panic!("expected an authorization error"),
    }
    match token_from_capture(Some(None)) {
        Err(BftpError::Auth(m)) => assert_eq!(m, "未找到access_token参数，请确保粘贴的是完整的回调地址"),
        _ => panic!("expected an authorization error"),
    }
    match token_from_capture(None) {
        Err(BftpError::Auth(m)) => assert_eq!(m, "无法编译access_token的匹配表达式"),
        _ => panic!("expected an authorization error"),
    }
}
