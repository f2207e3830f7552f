//! The URLs and form bodies of the drive's HTTP API.

use vstd::prelude::*;
use crate::client::hex_lower_digit;
use crate::constants::{APP_ID, D_PCS_BAIDU_BASE, OAUTH_AUTHORIZE_URL, OAUTH_SCOPE, PAN_BAIDU_API_BASE, PCS_UPLOAD_PATH, UPLOAD_VERSION};
use crate::text::{chars_of, decimal, extend_chars, extend_str, int_decimal, join_chars, push_decimal, push_int_decimal, string_of};

verus! {

// ---- percent-encoding (urlencoding crate) ----

/// Bytes that `urlencoding::encode` leaves as they are.
pub open spec fn url_unreserved(b: u8) -> bool {
    (48 <= b <= 57) || (65 <= b <= 90) || (97 <= b <= 122) || b == 45 || b == 46 || b == 95 || b == 126
}

/// The uppercase hexadecimal digit for `d < 16`.
pub open spec fn hex_upper(d: nat) -> char {
    if d < 10 { ((48 + d) as u8) as char } else { ((55 + d) as u8) as char }
}

/// Percent-encoding of a byte string: unreserved bytes as themselves, every
/// other byte as `%` and two uppercase hex digits.
pub open spec fn percent_encoded(bs: Seq<u8>) -> Seq<char>
    decreases bs.len(),
{
    if bs.len() == 0 {
        Seq::empty()
    } else {
        let b = bs.last();
        percent_encoded(bs.drop_last()) + if url_unreserved(b) {
            seq![b as char]
        } else {
            seq!['%', hex_upper((b / 16) as nat), hex_upper((b % 16) as nat)]
        }
    }
}

/// What `urlencoding::encode` gives for a string: its UTF-8 bytes, percent-encoded.
pub open spec fn url_encoded(s: Seq<char>) -> Seq<char> {
    percent_encoded(vstd::utf8::encode_utf8(s))
}

/// `urlencoding::encode`: percent-encodes every UTF-8 byte of `s` except
/// ASCII letters, digits and `-` `.` `_` `~`, with uppercase hex digits (as
/// the crate documents and its `to_hex_digit` writes them).
#[verifier::external_body]
pub(crate) fn url_encode(s: &str) -> (r: String)
    ensures
        r@ == url_encoded(s@),
{
    urlencoding::encode(s).into_owned()
}

// ---- JSON (serde_json crate) ----

/// How `serde_json` writes one character inside a string literal: `"` and
/// `\` after a backslash, backspace, tab, line feed, form feed and carriage
/// return as `\b` `\t` `\n` `\f` `\r`, the other characters below U+0020
/// as `\u00` and two lowercase hex digits, everything else as it is.
pub open spec fn json_char_escape(c: char) -> Seq<char> {
    if c == '"' {
        seq!['\\', '"']
    } else if c == '\\' {
        seq!['\\', '\\']
    } else if c == '\u{8}' {
        seq!['\\', 'b']
    } else if c == '\t' {
        seq!['\\', 't']
    } else if c == '\n' {
        seq!['\\', 'n']
    } else if c == '\u{c}' {
        seq!['\\', 'f']
    } else if c == '\r' {
        seq!['\\', 'r']
    } else if ' ' > c {
        seq!['\\', 'u', '0', '0', hex_lower_digit(((c as nat) / 16) as nat), hex_lower_digit(((c as nat) % 16) as nat)]
    } else {
        seq![c]
    }
}

/// The characters of a string as they stand inside a JSON string literal.
pub open spec fn json_escaped(s: Seq<char>) -> Seq<char>
    decreases s.len(),
{
    if s.len() == 0 {
        Seq::empty()
    } else {
        json_escaped(s.drop_last()) + json_char_escape(s.last())
    }
}

/// The JSON string literal that `serde_json::to_string` writes for a string.
pub open spec fn json_string_text(s: Seq<char>) -> Seq<char> {
    seq!['"'] + json_escaped(s) + seq!['"']
}

/// No character that JSON string literals escape (`"`, `\`, controls below U+0020).
pub open spec fn json_plain(s: Seq<char>) -> bool {
    forall|i: int| 0 <= i < s.len() ==> s[i] != '"' && s[i] != '\\' && s[i] >= ' '
}

/// A string with nothing to escape stands between plain quotes.
pub proof fn lemma_json_plain_text(s: Seq<char>)
    requires
        json_plain(s),
    ensures
        json_string_text(s) == seq!['"'] + s + seq!['"'],
    decreases s.len(),
{
    lemma_json_plain_escaped(s);
}

proof fn lemma_json_plain_escaped(s: Seq<char>)
    requires
        json_plain(s),
    ensures
        json_escaped(s) == s,
    decreases s.len(),
{
    if s.len() > 0 {
        let d = s.drop_last();
        assert(json_plain(d)) by {
            assert forall|i: int| 0 <= i < d.len() implies d[i] != '"' && d[i] != '\\' && d[i] >= ' ' by {
                assert(d[i] == s[i]);
            }
        }
        lemma_json_plain_escaped(d);
        let c = s.last();
        assert(c != '"' && c != '\\' && c >= ' ');
        assert(json_char_escape(c) == seq![c]);
        assert(d.push(c) =~= s);
        assert(json_escaped(s) =~= s);
    } else {
        assert(json_escaped(s) =~= s);
    }
}

/// `serde_json::to_string` of a string: the JSON string literal. The crate
/// serialises a `str` into a `Vec<u8>`, which cannot fail; its escape table
/// (`ESCAPE` in `ser.rs`) marks only the bytes below 0x20, `"` and `\`, and
/// it writes the short escapes and `\u00XX` with lowercase hex digits.
#[verifier::external_body]
pub(crate) fn json_string_literal(s: &str) -> (r: String)
    ensures
        r@ == json_string_text(s@),
{
    match serde_json::to_string(s) {
        Ok(t) => t,
        Err(_) => String::new(),
    }
}

/// The JSON text of a list of integers: `[`, the decimals separated by `,`, `]`.
pub open spec fn json_u64_list(ids: Seq<u64>) -> Seq<char> {
    seq!['['] + join_chars(Seq::new(ids.len(), |i: int| decimal(ids[i] as nat)), seq![',']) + seq![']']
}

/// `serde_json::to_string` of a list of `u64`, which cannot fail for
/// integers: its compact formatter writes `[`, the elements separated by
/// `,`, and `]`, and each integer in decimal (through `itoa`).
#[verifier::external_body]
pub(crate) fn json_u64_array(ids: &[u64]) -> (r: String)
    ensures
        r@ == json_u64_list(ids@),
{
    match serde_json::to_string(ids) {
        Ok(t) => t,
        Err(_) => String::new(),
    }
}

fn push_encoded(v: &mut Vec<char>, s: &str)
    ensures
        final(v)@ == old(v)@ + url_encoded(s@),
{
    let e = url_encode(s);
    extend_str(v, e.as_str());
}

fn push_json_literal(v: &mut Vec<char>, s: &str)
    ensures
        final(v)@ == old(v)@ + json_string_text(s@),
{
    let e = json_string_literal(s);
    extend_str(v, e.as_str());
}

// ---- URLs ----

/// `<api base><path>&access_token=<token>`.
pub open spec fn api_url_text(token: Seq<char>, path: Seq<char>) -> Seq<char> {
    PAN_BAIDU_API_BASE@ + path + "&access_token="@ + token
}

/// An API URL with the access token appended.
pub fn api_url(access_token: &str, path: &str) -> (r: String)
    ensures
        r@ == api_url_text(access_token@, path@),
{
    let mut v = chars_of(PAN_BAIDU_API_BASE);
    extend_str(&mut v, path);
    extend_str(&mut v, "&access_token=");
    extend_str(&mut v, access_token);
    string_of(&v)
}

/// The account-information URL.
pub fn user_info_url(access_token: &str) -> (r: String)
    ensures
        r@ == api_url_text(access_token@, "/xpan/nas?method=uinfo&vip_version=v2"@),
{
    api_url(access_token, "/xpan/nas?method=uinfo&vip_version=v2")
}

/// The directory-listing URL (the directory is sent as given).
pub fn list_files_url(access_token: &str, dir: &str) -> (r: String)
    ensures
        r@ == api_url_text(access_token@, "/xpan/file?method=list"@) + "&dir="@ + dir@,
{
    let u = api_url(access_token, "/xpan/file?method=list");
    let mut v = chars_of(u.as_str());
    extend_str(&mut v, "&dir=");
    extend_str(&mut v, dir);
    string_of(&v)
}

/// The file-metadata URL, asking for download links.
pub fn file_metas_url(access_token: &str, fsids: &[u64]) -> (r: String)
    ensures
        r@ == PAN_BAIDU_API_BASE@ + "/xpan/multimedia?method=filemetas&access_token="@ + access_token@
            + "&fsids="@ + json_u64_list(fsids@) + "&dlink=1"@,
{
    let mut v = chars_of(PAN_BAIDU_API_BASE);
    extend_str(&mut v, "/xpan/multimedia?method=filemetas&access_token=");
    extend_str(&mut v, access_token);
    extend_str(&mut v, "&fsids=");
    let j = json_u64_array(fsids);
    extend_str(&mut v, j.as_str());
    extend_str(&mut v, "&dlink=1");
    string_of(&v)
}

/// The URL of one page (1000 entries from `cursor` on) of a recursive listing.
pub fn list_all_url(access_token: &str, path: &str, cursor: i32) -> (r: String)
    ensures
        r@ == PAN_BAIDU_API_BASE@ + "/xpan/multimedia?method=listall&access_token="@ + access_token@
            + "&path="@ + url_encoded(path@) + "&recursion=1&start="@ + int_decimal(cursor as int)
            + "&limit=1000"@,
{
    let mut v = chars_of(PAN_BAIDU_API_BASE);
    extend_str(&mut v, "/xpan/multimedia?method=listall&access_token=");
    extend_str(&mut v, access_token);
    extend_str(&mut v, "&path=");
    push_encoded(&mut v, path);
    extend_str(&mut v, "&recursion=1&start=");
    push_int_decimal(&mut v, cursor as i64);
    extend_str(&mut v, "&limit=1000");
    string_of(&v)
}

/// A download link with the access token appended.
pub fn download_url(dlink: &str, access_token: &str) -> (r: String)
    ensures
        r@ == dlink@ + "&access_token="@ + access_token@,
{
    let mut v = chars_of(dlink);
    extend_str(&mut v, "&access_token=");
    extend_str(&mut v, access_token);
    string_of(&v)
}

/// The `Range` header value asking for everything from `start` on.
pub fn range_from(start: u64) -> (r: String)
    ensures
        r@ == "bytes="@ + decimal(start as nat) + "-"@,
{
    let mut v = chars_of("bytes=");
    push_decimal(&mut v, start);
    extend_str(&mut v, "-");
    string_of(&v)
}

/// The `Range` header value for the inclusive byte range `start..=end`.
pub fn range_between(start: u64, end: u64) -> (r: String)
    ensures
        r@ == "bytes="@ + decimal(start as nat) + "-"@ + decimal(end as nat),
{
    let mut v = chars_of("bytes=");
    push_decimal(&mut v, start);
    extend_str(&mut v, "-");
    push_decimal(&mut v, end);
    string_of(&v)
}

/// The form body that announces an upload.
pub open spec fn precreate_body_text(path: Seq<char>, size: u64, block_list: Seq<char>, uploadid: Option<Seq<char>>) -> Seq<char> {
    "path="@ + url_encoded(path) + "&size="@ + decimal(size as nat) + "&isdir=0&block_list="@
        + url_encoded(block_list) + "&autoinit=1&rtype=1"@
        + match uploadid {
            Some(u) => "&uploadid="@ + url_encoded(u),
            None => Seq::empty(),
        }
}

/// The form body that announces an upload, resuming `uploadid` when given.
pub fn precreate_body(path: &str, size: u64, block_list: &str, uploadid: Option<&str>) -> (r: String)
    ensures
        r@ == precreate_body_text(path@, size, block_list@, match uploadid {
            Some(u) => Some(u@),
            None => None,
        }),
{
    let mut v = chars_of("path=");
    push_encoded(&mut v, path);
    extend_str(&mut v, "&size=");
    push_decimal(&mut v, size);
    extend_str(&mut v, "&isdir=0&block_list=");
    push_encoded(&mut v, block_list);
    extend_str(&mut v, "&autoinit=1&rtype=1");
    match uploadid {
        Some(u) => {
            extend_str(&mut v, "&uploadid=");
            push_encoded(&mut v, u);
        },
        None => {
            assert(v@ =~= v@ + Seq::<char>::empty());
        },
    }
    string_of(&v)
}

/// The URL that asks for the upload servers of an upload.
pub fn locate_upload_url(access_token: &str, path: &str, uploadid: &str) -> (r: String)
    ensures
        r@ == D_PCS_BAIDU_BASE@ + "/file?method=locateupload&appid="@ + APP_ID@ + "&access_token="@
            + access_token@ + "&path="@ + url_encoded(path@) + "&uploadid="@ + uploadid@
            + "&upload_version="@ + UPLOAD_VERSION@,
{
    let mut v = chars_of(D_PCS_BAIDU_BASE);
    extend_str(&mut v, "/file?method=locateupload&appid=");
    extend_str(&mut v, APP_ID);
    extend_str(&mut v, "&access_token=");
    extend_str(&mut v, access_token);
    extend_str(&mut v, "&path=");
    push_encoded(&mut v, path);
    extend_str(&mut v, "&uploadid=");
    extend_str(&mut v, uploadid);
    extend_str(&mut v, "&upload_version=");
    extend_str(&mut v, UPLOAD_VERSION);
    string_of(&v)
}

/// The URL that one chunk is posted to on an upload server.
pub fn upload_chunk_url(domain: &str, access_token: &str, path: &str, uploadid: &str, partseq: i32) -> (r: String)
    ensures
        r@ == domain@ + PCS_UPLOAD_PATH@ + "?method=upload&access_token="@ + access_token@
            + "&type=tmpfile&path="@ + url_encoded(path@) + "&uploadid="@ + uploadid@ + "&partseq="@
            + int_decimal(partseq as int),
{
    let mut v = chars_of(domain);
    extend_str(&mut v, PCS_UPLOAD_PATH);
    extend_str(&mut v, "?method=upload&access_token=");
    extend_str(&mut v, access_token);
    extend_str(&mut v, "&type=tmpfile&path=");
    push_encoded(&mut v, path);
    extend_str(&mut v, "&uploadid=");
    extend_str(&mut v, uploadid);
    extend_str(&mut v, "&partseq=");
    push_int_decimal(&mut v, partseq as i64);
    string_of(&v)
}

/// The form body that completes an upload.
pub fn create_file_body(path: &str, size: u64, block_list: &str, uploadid: &str) -> (r: String)
    ensures
        r@ == "path="@ + url_encoded(path@) + "&size="@ + decimal(size as nat) + "&isdir=0&block_list="@
            + url_encoded(block_list@) + "&uploadid="@ + url_encoded(uploadid@) + "&rtype=1"@,
{
    let mut v = chars_of("path=");
    push_encoded(&mut v, path);
    extend_str(&mut v, "&size=");
    push_decimal(&mut v, size);
    extend_str(&mut v, "&isdir=0&block_list=");
    push_encoded(&mut v, block_list);
    extend_str(&mut v, "&uploadid=");
    push_encoded(&mut v, uploadid);
    extend_str(&mut v, "&rtype=1");
    string_of(&v)
}

/// The form body that creates a directory.
pub fn create_dir_body(path: &str) -> (r: String)
    ensures
        r@ == "path="@ + url_encoded(path@) + "&isdir=1&rtype=0"@,
{
    let mut v = chars_of("path=");
    push_encoded(&mut v, path);
    extend_str(&mut v, "&isdir=1&rtype=0");
    string_of(&v)
}

/// The URL of a file-manager operation (`rename`, `copy`, `delete`, …), run synchronously.
pub fn filemanager_url(access_token: &str, opera: &str) -> (r: String)
    ensures
        r@ == api_url_text(access_token@, "/xpan/file?method=filemanager"@) + "&opera="@ + opera@ + "&async=0"@,
{
    let u = api_url(access_token, "/xpan/file?method=filemanager");
    let mut v = chars_of(u.as_str());
    extend_str(&mut v, "&opera=");
    extend_str(&mut v, opera);
    extend_str(&mut v, "&async=0");
    string_of(&v)
}

/// The form body of a file-manager operation.
pub fn filemanager_body(filelist: &str) -> (r: String)
    ensures
        r@ == "filelist="@ + url_encoded(filelist@),
{
    let mut v = chars_of("filelist=");
    push_encoded(&mut v, filelist);
    string_of(&v)
}

/// `[{"newname":…,"path":…}]`: the file list of a rename (keys in the
/// sorted order in which `serde_json` writes object keys).
pub fn rename_filelist(path: &str, newname: &str) -> (r: String)
    ensures
        r@ == "[{\"newname\":"@ + json_string_text(newname@) + ",\"path\":"@ + json_string_text(path@) + "}]"@,
{
    let mut v = chars_of("[{\"newname\":");
    push_json_literal(&mut v, newname);
    extend_str(&mut v, ",\"path\":");
    push_json_literal(&mut v, path);
    extend_str(&mut v, "}]");
    string_of(&v)
}

/// `[{"dest":…,"newname":…,"path":…}]`: the file list of a copy.
pub fn copy_filelist(path: &str, dest: &str, newname: &str) -> (r: String)
    ensures
        r@ == "[{\"dest\":"@ + json_string_text(dest@) + ",\"newname\":"@ + json_string_text(newname@)
            + ",\"path\":"@ + json_string_text(path@) + "}]"@,
{
    let mut v = chars_of("[{\"dest\":");
    push_json_literal(&mut v, dest);
    extend_str(&mut v, ",\"newname\":");
    push_json_literal(&mut v, newname);
    extend_str(&mut v, ",\"path\":");
    push_json_literal(&mut v, path);
    extend_str(&mut v, "}]");
    string_of(&v)
}

/// `[…]`: the file list of a delete.
pub fn delete_filelist(path: &str) -> (r: String)
    ensures
        r@ == "["@ + json_string_text(path@) + "]"@,
{
    let mut v = chars_of("[");
    push_json_literal(&mut v, path);
    extend_str(&mut v, "]");
    string_of(&v)
}

/// The keyword-search URL: in `dir` (or the current directory), recursing when asked.
pub fn search_url(access_token: &str, key: &str, dir: Option<&str>, current_dir: &str, recursion: bool) -> (r: String)
    ensures
        r@ == PAN_BAIDU_API_BASE@ + "/xpan/file?method=search&access_token="@ + access_token@ + "&key="@
            + url_encoded(key@) + "&dir="@ + url_encoded(match dir {
                Some(d) => d@,
                None => current_dir@,
            }) + if recursion { "&recursion=1"@ } else { Seq::<char>::empty() },
{
    let mut v = chars_of(PAN_BAIDU_API_BASE);
    extend_str(&mut v, "/xpan/file?method=search&access_token=");
    extend_str(&mut v, access_token);
    extend_str(&mut v, "&key=");
    push_encoded(&mut v, key);
    extend_str(&mut v, "&dir=");
    match dir {
        Some(d) => push_encoded(&mut v, d),
        None => push_encoded(&mut v, current_dir),
    }
    if recursion {
        extend_str(&mut v, "&recursion=1");
    } else {
        assert(v@ =~= v@ + Seq::<char>::empty());
    }
    string_of(&v)
}

/// The semantic-search URL (500 results at most).
pub fn semantic_search_url(access_token: &str, query: &str, search_type: i32, dir: Option<&str>, current_dir: &str) -> (r: String)
    ensures
        r@ == "https://pan.baidu.com/xpan/unisearch?access_token="@ + access_token@
            + "&scene=mcpserver&query="@ + url_encoded(query@) + "&search_type="@
            + int_decimal(search_type as int) + "&num=500&dir="@ + url_encoded(match dir {
                Some(d) => d@,
                None => current_dir@,
            }),
{
    let mut v = chars_of("https://pan.baidu.com/xpan/unisearch?access_token=");
    extend_str(&mut v, access_token);
    extend_str(&mut v, "&scene=mcpserver&query=");
    push_encoded(&mut v, query);
    extend_str(&mut v, "&search_type=");
    push_int_decimal(&mut v, search_type as i64);
    extend_str(&mut v, "&num=500&dir=");
    match dir {
        Some(d) => push_encoded(&mut v, d),
        None => push_encoded(&mut v, current_dir),
    }
    string_of(&v)
}

/// The quota URL.
pub fn quota_url(access_token: &str) -> (r: String)
    ensures
        r@ == "https://pan.baidu.com/api/quota?access_token="@ + access_token@,
{
    let mut v = chars_of("https://pan.baidu.com/api/quota?access_token=");
    extend_str(&mut v, access_token);
    string_of(&v)
}

/// The OAuth page where the user grants access (implicit-grant flow).
pub fn authorize_url(client_id: &str, redirect_uri: &str) -> (r: String)
    ensures
        r@ == OAUTH_AUTHORIZE_URL@ + "?response_type=token&client_id="@ + client_id@ + "&redirect_uri="@
            + redirect_uri@ + "&scope="@ + OAUTH_SCOPE@,
{
    let mut v = chars_of(OAUTH_AUTHORIZE_URL);
    extend_str(&mut v, "?response_type=token&client_id=");
    extend_str(&mut v, client_id);
    extend_str(&mut v, "&redirect_uri=");
    extend_str(&mut v, redirect_uri);
    extend_str(&mut v, "&scope=");
    extend_str(&mut v, OAUTH_SCOPE);
    string_of(&v)
}

} // verus!
