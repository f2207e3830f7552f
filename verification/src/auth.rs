//! Reading the access token out of the address the browser lands on after
//! the user grants access.

use vstd::prelude::*;
use crate::error::BftpError;
use crate::text::{chars_of, string_of};
use crate::wildcard::regex_compiles;

verus! {

/// The expression that finds the token: `access_token=` and everything up to
/// the next `&`.
pub const TOKEN_PATTERN: &'static str = "access_token=([^&]+)";

/// What the first capture group of the leftmost match of `pattern` in `text`
/// holds (`regex::Regex::captures`, group 1); `None` when nothing matches.
pub uninterp spec fn regex_group1(pattern: Seq<char>, text: Seq<char>) -> Option<Seq<char>>;

/// Compiles `pattern` with `regex::Regex::new` and, when it compiles, gives
/// the first capture group of the leftmost match in `text`
/// (`Regex::captures`, then `Captures::get(1)`). The contract names both
/// outcomes; what the group holds is left to [`regex_group1`].
#[verifier::external_body]
fn regex_first_group(pattern: &str, text: &str) -> (r: Option<Option<String>>)
    ensures
        r is None <==> !regex_compiles(pattern@),
        r matches Some(g) ==> match g {
            Some(s) => regex_group1(pattern@, text@) == Some(s@),
            None => regex_group1(pattern@, text@) == None::<Seq<char>>,
        },
{
    let re = match regex::Regex::new(pattern) {
        Ok(re) => re,
        Err(_) => return None,
    };
    match re.captures(text) {
        Some(caps) => match caps.get(1) {
            Some(m) => Some(Some(m.as_str().to_string())),
            None => Some(None),
        },
        None => Some(None),
    }
}

/// The capture result of [`regex_first_group`] with its strings as character
/// sequences: `None` when the pattern did not compile, `Some(None)` when
/// nothing matched, `Some(Some(t))` for the captured text.
pub open spec fn capture_view(found: Option<Option<String>>) -> Option<Option<Seq<char>>> {
    match found {
        None => None,
        Some(None) => Some(None),
        Some(Some(t)) => Some(Some(t@)),
    }
}

/// Why a capture result gives no token.
pub open spec fn capture_error(found: Option<Option<Seq<char>>>) -> Option<Seq<char>> {
    match found {
        None => Some("无法编译access_token的匹配表达式"@),
        Some(None) => Some("未找到access_token参数，请确保粘贴的是完整的回调地址"@),
        Some(Some(t)) => if t.len() == 0 { Some("提取到的access_token为空"@) } else { None },
    }
}

/// Why no token could be read from the callback address.
pub open spec fn extraction_error(url: Seq<char>) -> Option<Seq<char>> {
    capture_error(
        if regex_compiles(TOKEN_PATTERN@) { Some(regex_group1(TOKEN_PATTERN@, url)) } else { None },
    )
}

/// Turns the capture of the token pattern into the token: a captured,
/// non-empty text is the token; a pattern that did not compile, no match,
/// or an empty capture is an authorization error saying which.
pub fn token_from_capture(found: Option<Option<String>>) -> (r: Result<String, BftpError>)
    ensures
        match r {
            Ok(t) => capture_error(capture_view(found)) is None && capture_view(found) == Some(Some(t@)),
            Err(e) => capture_error(capture_view(found)) matches Some(m) && e matches BftpError::Auth(msg) && msg@ == m,
        },
{
    match found {
        None => Err(BftpError::Auth(string_of(&chars_of("无法编译access_token的匹配表达式")))),
        Some(None) => Err(BftpError::Auth(string_of(&chars_of("未找到access_token参数，请确保粘贴的是完整的回调地址")))),
        Some(Some(token)) => {
            if chars_of(token.as_str()).len() == 0 {
                Err(BftpError::Auth(string_of(&chars_of("提取到的access_token为空"))))
            } else {
                Ok(token)
            }
        },
    }
}

/// Reads the access token from the callback address: the text after the
/// first `access_token=` up to the next `&`. Fails with an authorization
/// error when there is none or it is empty.
pub fn extract_access_token(callback_url: &str) -> (r: Result<String, BftpError>)
    ensures
        match r {
            Ok(t) => extraction_error(callback_url@) is None
                && regex_group1(TOKEN_PATTERN@, callback_url@) == Some(t@),
            Err(e) => extraction_error(callback_url@) matches Some(m) && e matches BftpError::Auth(msg) && msg@ == m,
        },
{
    let found = regex_first_group(TOKEN_PATTERN, callback_url);
    proof {
        assert(capture_view(found) == (if regex_compiles(TOKEN_PATTERN@) {
            Some(regex_group1(TOKEN_PATTERN@, callback_url@))
        } else {
            None
        }));
    }
    token_from_capture(found)
}

} // verus!
