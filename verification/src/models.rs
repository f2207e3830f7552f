//! The records that the cloud-drive service answers with, and the checks
//! that decide whether an answer reports success.

use vstd::prelude::*;
use std::collections::HashMap;
use crate::error::BftpError;
use crate::text::{chars_of, extend_chars, int_decimal, push_int_decimal, string_of};

verus! {

/// Debug text of an optional string, as `format!("{:?}", ..)` renders it.
pub uninterp spec fn option_string_debug(o: Option<Seq<char>>) -> Seq<char>;

/// The view of an optional string.
pub open spec fn opt_view(o: Option<String>) -> Option<Seq<char>> {
    match o {
        Some(s) => Some(s@),
        None => None,
    }
}

/// Printable ASCII other than `"` and `\\`: the characters that `Debug`
/// writes as they are inside a string.
pub open spec fn debug_plain(s: Seq<char>) -> bool {
    forall|i: int| 0 <= i < s.len() ==> ' ' <= #[trigger] s[i] <= '~' && s[i] != '"' && s[i] != '\\'
}

/// Renders an optional string with std's `Debug` formatting: `None`, or
/// `Some(` and the string in double quotes with `char::escape_debug`
/// escapes, then `)`. The contract gives the text for `None` and for
/// strings of printable ASCII without `"` and `\\` (which are not escaped);
/// for other strings it names the result.
#[verifier::external_body]
fn debug_option_string(o: &Option<String>) -> (r: String)
    ensures
        r@ == option_string_debug(opt_view(*o)),
        *o is None ==> r@ == "None"@,
        (*o matches Some(t) && debug_plain(t@)) ==> r@ == "Some("@ + seq!['"'] + o->0@ + seq!['"'] + ")"@,
{
    format!("{:?}", o)
}

/// The `Debug` text of an optional string: exact for `None` and for plain
/// strings, named otherwise.
pub open spec fn debug_text(o: Option<Seq<char>>) -> Seq<char> {
    match o {
        None => "None"@,
        Some(t) => if debug_plain(t) {
            "Some("@ + seq!['"'] + t + seq!['"'] + ")"@
        } else {
            option_string_debug(o)
        },
    }
}

fn debug_text_of(o: &Option<String>) -> (r: Vec<char>)
    ensures
        r@ == debug_text(opt_view(*o)),
{
    let d = debug_option_string(o);
    chars_of(d.as_str())
}

/// `errno=<n>, msg=<debug of errmsg>`.
pub open spec fn errno_desc(errno: i32, errmsg: Option<Seq<char>>) -> Seq<char> {
    "errno="@ + int_decimal(errno as int) + ", msg="@ + debug_text(errmsg)
}

/// How answers report success or failure.
pub trait ApiResponse {
    /// Whether the answer reports success.
    spec fn succeeded(&self) -> bool;

    /// The error number the answer carries.
    spec fn code(&self) -> i32;

    /// The error message the answer carries.
    spec fn message(&self) -> Option<Seq<char>>;

    fn is_success(&self) -> (r: bool)
        ensures
            r == self.succeeded(),
    ;

    fn error_code(&self) -> (r: i32)
        ensures
            r == self.code(),
    ;

    fn error_msg(&self) -> (r: Option<String>)
        ensures
            opt_view(r) == self.message(),
    ;

    fn error_desc(&self) -> String;
}

/// Accepts a successful answer, and turns a failed one into an
/// [`BftpError::Api`] carrying its error number and message.
pub fn check_response<T: ApiResponse>(result: T) -> (r: Result<T, BftpError>)
    ensures
        result.succeeded() ==> r == Ok::<T, BftpError>(result),
        !result.succeeded() ==> (r matches Err(BftpError::Api { errno, errmsg })
            && errno == result.code() && opt_view(errmsg) == result.message()),
{
    if result.is_success() {
        Ok(result)
    } else {
        let errno = result.error_code();
        let errmsg = result.error_msg();
        Err(BftpError::Api { errno, errmsg })
    }
}

fn errno_desc_string(errno: i32, errmsg: &Option<String>) -> (r: String)
    ensures
        r@ == errno_desc(errno, opt_view(*errmsg)),
{
    let mut v = chars_of("errno=");
    push_int_decimal(&mut v, errno as i64);
    let sep = chars_of(", msg=");
    extend_chars(&mut v, &sep);
    let dv = debug_text_of(errmsg);
    extend_chars(&mut v, &dv);
    string_of(&v)
}

fn clone_opt_string(o: &Option<String>) -> (r: Option<String>)
    ensures
        opt_view(r) == opt_view(*o),
{
    match o {
        Some(s) => Some(s.clone()),
        None => None,
    }
}

/// Common error fields of the service's answers.
pub struct BaiduApiErrNoResponse {
    pub errno: i32,
    pub errmsg: Option<String>,
}

impl ApiResponse for BaiduApiErrNoResponse {
    open spec fn succeeded(&self) -> bool {
        self.errno == 0
    }

    open spec fn code(&self) -> i32 {
        self.errno
    }

    open spec fn message(&self) -> Option<Seq<char>> {
        opt_view(self.errmsg)
    }

    fn is_success(&self) -> (r: bool) {
        self.errno == 0
    }

    fn error_code(&self) -> (r: i32) {
        self.errno
    }

    fn error_msg(&self) -> (r: Option<String>) {
        clone_opt_string(&self.errmsg)
    }

    fn error_desc(&self) -> (r: String)
        ensures
            r@ == errno_desc(self.errno, opt_view(self.errmsg)),
    {
        errno_desc_string(self.errno, &self.errmsg)
    }
}


/// Account information.
pub struct UserInfoResponse {
    pub base: BaiduApiErrNoResponse,
    pub baidu_name: Option<String>,
    pub netdisk_name: Option<String>,
    pub avatar_url: Option<String>,
    pub vip_type: Option<i32>,
    pub uk: Option<u64>,
}

impl ApiResponse for UserInfoResponse {
    open spec fn succeeded(&self) -> bool {
        self.base.succeeded()
    }

    open spec fn code(&self) -> i32 {
        self.base.code()
    }

    open spec fn message(&self) -> Option<Seq<char>> {
        self.base.message()
    }

    fn is_success(&self) -> (r: bool) {
        self.base.is_success()
    }

    fn error_code(&self) -> (r: i32) {
        self.base.error_code()
    }

    fn error_msg(&self) -> (r: Option<String>) {
        self.base.error_msg()
    }

    fn error_desc(&self) -> (r: String)
        ensures
            r@ == errno_desc(self.base.errno, opt_view(self.base.errmsg)),
    {
        self.base.error_desc()
    }
}

/// Storage quota.
pub struct CapacityInfoResponse {
    pub errno: i32,
    pub expire: bool,
    pub total: u64,
    pub used: u64,
    pub free: u64,
    pub request_id: Option<u64>,
}

impl ApiResponse for CapacityInfoResponse {
    open spec fn succeeded(&self) -> bool {
        self.errno == 0
    }

    open spec fn code(&self) -> i32 {
        self.errno
    }

    open spec fn message(&self) -> Option<Seq<char>> {
        None
    }

    fn is_success(&self) -> (r: bool) {
        self.errno == 0
    }

    fn error_code(&self) -> (r: i32) {
        self.errno
    }

    fn error_msg(&self) -> (r: Option<String>) {
        None
    }

    fn error_desc(&self) -> (r: String)
        ensures
            r@ == "errno="@ + int_decimal(self.errno as int),
    {
        let mut v = chars_of("errno=");
        push_int_decimal(&mut v, self.errno as i64);
        string_of(&v)
    }
}

/// The entries of one directory.
pub struct FileListResponse {
    pub base: BaiduApiErrNoResponse,
    pub list: Option<Vec<FileInfo>>,
    pub guid: Option<u32>,
}

impl ApiResponse for FileListResponse {
    open spec fn succeeded(&self) -> bool {
        self.base.succeeded()
    }

    open spec fn code(&self) -> i32 {
        self.base.code()
    }

    open spec fn message(&self) -> Option<Seq<char>> {
        self.base.message()
    }

    fn is_success(&self) -> (r: bool) {
        self.base.is_success()
    }

    fn error_code(&self) -> (r: i32) {
        self.base.error_code()
    }

    fn error_msg(&self) -> (r: Option<String>) {
        self.base.error_msg()
    }

    fn error_desc(&self) -> (r: String)
        ensures
            r@ == errno_desc(self.base.errno, opt_view(self.base.errmsg)),
    {
        self.base.error_desc()
    }
}

/// One page of a recursive listing.
pub struct CategoryFileListResponse {
    pub base: BaiduApiErrNoResponse,
    pub has_more: i32,
    pub cursor: i32,
    pub list: Option<Vec<FileInfo>>,
}

impl ApiResponse for CategoryFileListResponse {
    open spec fn succeeded(&self) -> bool {
        self.base.succeeded()
    }

    open spec fn code(&self) -> i32 {
        self.base.code()
    }

    open spec fn message(&self) -> Option<Seq<char>> {
        self.base.message()
    }

    fn is_success(&self) -> (r: bool) {
        self.base.is_success()
    }

    fn error_code(&self) -> (r: i32) {
        self.base.error_code()
    }

    fn error_msg(&self) -> (r: Option<String>) {
        self.base.error_msg()
    }

    fn error_desc(&self) -> (r: String)
        ensures
            r@ == errno_desc(self.base.errno, opt_view(self.base.errmsg)),
    {
        self.base.error_desc()
    }
}

/// The category the service files an entry under.
#[derive(Clone, Copy, PartialEq, Eq, Structural, Debug, Hash)]
pub enum FileType {
    Unknown,
    Video,
    Audio,
    Image,
    Document,
    App,
    Other,
    Torrent,
}

impl FileType {
    /// The category's display name.
    pub open spec fn spec_display(self) -> Seq<char> {
        match self {
            FileType::Unknown => "未知"@,
            FileType::Video => "视频"@,
            FileType::Audio => "音乐"@,
            FileType::Image => "图片"@,
            FileType::Document => "文档"@,
            FileType::App => "应用"@,
            FileType::Other => "其他"@,
            FileType::Torrent => "种子"@,
        }
    }

    /// The category's display name.
    pub fn display(&self) -> (r: &'static str)
        ensures
            r@ == self.spec_display(),
    {
        match self {
            FileType::Unknown => "未知",
            FileType::Video => "视频",
            FileType::Audio => "音乐",
            FileType::Image => "图片",
            FileType::Document => "文档",
            FileType::App => "应用",
            FileType::Other => "其他",
            FileType::Torrent => "种子",
        }
    }
}

/// One file or directory on the drive.
pub struct FileInfo {
    pub fs_id: u64,
    pub path: String,
    pub server_filename: String,
    pub size: u64,
    pub server_mtime: Option<u64>,
    pub server_ctime: Option<u64>,
    pub local_mtime: Option<u64>,
    pub local_ctime: Option<u64>,
    pub isdir: u32,
    pub category: FileType,
    pub md5: Option<String>,
    pub dir_empty: Option<i32>,
    pub thumbs: Option<HashMap<String, String>>,
}

/// Metadata of a file, with its download link.
pub struct FileMeta {
    pub category: FileType,
    pub dlink: String,
    pub filename: String,
    pub isdir: i32,
    pub server_ctime: i32,
    pub server_mtime: i32,
    pub size: i32,
    pub thumbs: Option<HashMap<String, String>>,
    pub height: Option<i32>,
    pub width: Option<i32>,
    pub date_taken: Option<i32>,
    pub orientation: Option<String>,
    pub media_info: Option<HashMap<String, String>>,
}

/// Metadata (and download links) of requested files.
pub struct QueryFileInfoResponse {
    pub base: BaiduApiErrNoResponse,
    pub names: HashMap<String, String>,
    pub list: Vec<FileMeta>,
}

impl ApiResponse for QueryFileInfoResponse {
    open spec fn succeeded(&self) -> bool {
        self.base.succeeded()
    }

    open spec fn code(&self) -> i32 {
        self.base.code()
    }

    open spec fn message(&self) -> Option<Seq<char>> {
        self.base.message()
    }

    fn is_success(&self) -> (r: bool) {
        self.base.is_success()
    }

    fn error_code(&self) -> (r: i32) {
        self.base.error_code()
    }

    fn error_msg(&self) -> (r: Option<String>) {
        self.base.error_msg()
    }

    fn error_desc(&self) -> (r: String)
        ensures
            r@ == errno_desc(self.base.errno, opt_view(self.base.errmsg)),
    {
        self.base.error_desc()
    }
}

/// Results of a keyword search.
pub struct SearchFileByKeywordResponse {
    pub base: BaiduApiErrNoResponse,
    pub has_more: i32,
    pub list: Vec<FileInfo>,
}

impl ApiResponse for SearchFileByKeywordResponse {
    open spec fn succeeded(&self) -> bool {
        self.base.succeeded()
    }

    open spec fn code(&self) -> i32 {
        self.base.code()
    }

    open spec fn message(&self) -> Option<Seq<char>> {
        self.base.message()
    }

    fn is_success(&self) -> (r: bool) {
        self.base.is_success()
    }

    fn error_code(&self) -> (r: i32) {
        self.base.error_code()
    }

    fn error_msg(&self) -> (r: Option<String>) {
        self.base.error_msg()
    }

    fn error_desc(&self) -> (r: String)
        ensures
            r@ == errno_desc(self.base.errno, opt_view(self.base.errmsg)),
    {
        self.base.error_desc()
    }
}

/// One hit of a semantic search.
pub struct SemanticFileInfo {
    pub category: FileType,
    pub filename: String,
    pub fsid: u64,
    pub isdir: i32,
    pub parent_path: String,
    pub path: String,
    pub content: Option<String>,
    pub pid: Option<u64>,
    pub ocr: Option<String>,
    pub server_ctime: u64,
    pub server_mtime: u64,
    pub size: Option<u64>,
}

/// A group of semantic-search hits from one source.
pub struct SemanticData {
    pub category: FileType,
    pub display_type: i32,
    pub list: Vec<SemanticFileInfo>,
    pub source: i32,
}

/// Results of a semantic search.
pub struct SearchFileBySemanticResponse {
    pub error_no: i32,
    pub error_msg: Option<String>,
    pub is_end: bool,
    pub request_id: u64,
    pub server_time: Option<u64>,
    pub data: Option<Vec<SemanticData>>,
}

impl ApiResponse for SearchFileBySemanticResponse {
    open spec fn succeeded(&self) -> bool {
        self.error_no == 0
    }

    open spec fn code(&self) -> i32 {
        self.error_no
    }

    open spec fn message(&self) -> Option<Seq<char>> {
        opt_view(self.error_msg)
    }

    fn is_success(&self) -> (r: bool) {
        self.error_no == 0
    }

    fn error_code(&self) -> (r: i32) {
        self.error_no
    }

    fn error_msg(&self) -> (r: Option<String>) {
        clone_opt_string(&self.error_msg)
    }

    fn error_desc(&self) -> (r: String)
        ensures
            r@ == "error_no="@ + int_decimal(self.error_no as int) + ", msg="@
                + debug_text(opt_view(self.error_msg)),
    {
        let mut v = chars_of("error_no=");
        push_int_decimal(&mut v, self.error_no as i64);
        let sep = chars_of(", msg=");
        extend_chars(&mut v, &sep);
        let dv = debug_text_of(&self.error_msg);
        extend_chars(&mut v, &dv);
        string_of(&v)
    }
}

/// Outcome of a rename, copy, move or delete.
pub struct FileManagerResponse {
    pub base: BaiduApiErrNoResponse,
    pub info: Option<Vec<FileManagerItem>>,
    pub taskid: Option<u64>,
    pub request_id: Option<u64>,
}

impl ApiResponse for FileManagerResponse {
    open spec fn succeeded(&self) -> bool {
        self.base.succeeded()
    }

    open spec fn code(&self) -> i32 {
        self.base.code()
    }

    open spec fn message(&self) -> Option<Seq<char>> {
        self.base.message()
    }

    fn is_success(&self) -> (r: bool) {
        self.base.is_success()
    }

    fn error_code(&self) -> (r: i32) {
        self.base.error_code()
    }

    fn error_msg(&self) -> (r: Option<String>) {
        self.base.error_msg()
    }

    fn error_desc(&self) -> (r: String)
        ensures
            r@ == errno_desc(self.base.errno, opt_view(self.base.errmsg)),
    {
        self.base.error_desc()
    }
}

/// Outcome for one file of a file-manager request.
pub struct FileManagerItem {
    pub errno: i32,
    pub path: Option<String>,
}

/// Answer to an upload pre-creation.
pub struct PrecreateResponse {
    pub base: BaiduApiErrNoResponse,
    pub path: Option<String>,
    pub uploadid: Option<String>,
    pub return_type: Option<i32>,
    pub block_list: Option<Vec<i32>>,
    pub request_id: Option<u64>,
}

impl ApiResponse for PrecreateResponse {
    open spec fn succeeded(&self) -> bool {
        self.base.succeeded()
    }

    open spec fn code(&self) -> i32 {
        self.base.code()
    }

    open spec fn message(&self) -> Option<Seq<char>> {
        self.base.message()
    }

    fn is_success(&self) -> (r: bool) {
        self.base.is_success()
    }

    fn error_code(&self) -> (r: i32) {
        self.base.error_code()
    }

    fn error_msg(&self) -> (r: Option<String>) {
        self.base.error_msg()
    }

    fn error_desc(&self) -> (r: String)
        ensures
            r@ == errno_desc(self.base.errno, opt_view(self.base.errmsg)),
    {
        self.base.error_desc()
    }
}

/// One upload server.
pub struct ServerInfo {
    pub server: String,
}

/// The upload servers for one upload.
pub struct LocateUploadResponse {
    pub error_code: i32,
    pub error_msg: Option<String>,
    pub servers: Option<Vec<ServerInfo>>,
    pub request_id: Option<u64>,
}

impl ApiResponse for LocateUploadResponse {
    open spec fn succeeded(&self) -> bool {
        self.error_code == 0
    }

    open spec fn code(&self) -> i32 {
        self.error_code
    }

    open spec fn message(&self) -> Option<Seq<char>> {
        opt_view(self.error_msg)
    }

    fn is_success(&self) -> (r: bool) {
        self.error_code == 0
    }

    fn error_code(&self) -> (r: i32) {
        self.error_code
    }

    fn error_msg(&self) -> (r: Option<String>) {
        clone_opt_string(&self.error_msg)
    }

    fn error_desc(&self) -> (r: String)
        ensures
            r@ == "error_code="@ + int_decimal(self.error_code as int) + ", msg="@
                + debug_text(opt_view(self.error_msg)),
    {
        let mut v = chars_of("error_code=");
        push_int_decimal(&mut v, self.error_code as i64);
        let sep = chars_of(", msg=");
        extend_chars(&mut v, &sep);
        let dv = debug_text_of(&self.error_msg);
        extend_chars(&mut v, &dv);
        string_of(&v)
    }
}

/// `Debug` text of an optional error number: `None` or `Some(<n>)`.
pub open spec fn option_i32_debug(o: Option<i32>) -> Seq<char> {
    match o {
        Some(e) => "Some("@ + int_decimal(e as int) + ")"@,
        None => "None"@,
    }
}

/// Answer to one uploaded chunk.
pub struct UploadChunkResponse {
    pub errno: Option<i32>,
    pub md5: Option<String>,
    pub request_id: Option<u64>,
}

impl ApiResponse for UploadChunkResponse {
    open spec fn succeeded(&self) -> bool {
        match self.errno {
            Some(e) => e == 0,
            None => true,
        }
    }

    open spec fn code(&self) -> i32 {
        match self.errno {
            Some(e) => e,
            None => 0,
        }
    }

    open spec fn message(&self) -> Option<Seq<char>> {
        None
    }

    fn is_success(&self) -> (r: bool)
        ensures
            self.errno is None ==> r,
            self.errno matches Some(e) ==> (r <==> e == 0),
    {
        match self.errno {
            Some(e) => e == 0,
            None => true,
        }
    }

    fn error_code(&self) -> (r: i32) {
        match self.errno {
            Some(e) => e,
            None => 0,
        }
    }

    fn error_msg(&self) -> (r: Option<String>) {
        None
    }

    fn error_desc(&self) -> (r: String)
        ensures
            r@ == "errno="@ + option_i32_debug(self.errno),
    {
        let mut v = chars_of("errno=");
        match self.errno {
            Some(e) => {
                let a = chars_of("Some(");
                extend_chars(&mut v, &a);
                push_int_decimal(&mut v, e as i64);
                v.push(')');
                proof { reveal_strlit(")"); }
                assert(")"@ =~= seq![')']);
            },
            None => {
                let a = chars_of("None");
                extend_chars(&mut v, &a);
            },
        }
        string_of(&v)
    }
}

/// An answer to an uploaded chunk that carries no error number reports
/// success, and one that carries a number reports success exactly when it
/// is 0, which is when its error number (0 when absent) is 0.
pub proof fn chunk_answer_success(resp: UploadChunkResponse)
    ensures
        resp.errno is None ==> resp.succeeded(),
        resp.errno matches Some(e) ==> (resp.succeeded() <==> e == 0),
        resp.succeeded() <==> resp.code() == 0,
{
}

/// Answer to creating a file or directory.
pub struct CreateFileResponse {
    pub base: BaiduApiErrNoResponse,
    pub fs_id: Option<u64>,
    pub md5: Option<String>,
    pub server_filename: Option<String>,
    pub category: Option<i32>,
    pub path: Option<String>,
    pub size: Option<u64>,
    pub ctime: Option<u64>,
    pub mtime: Option<u64>,
    pub isdir: Option<i32>,
}

impl ApiResponse for CreateFileResponse {
    open spec fn succeeded(&self) -> bool {
        self.base.succeeded()
    }

    open spec fn code(&self) -> i32 {
        self.base.code()
    }

    open spec fn message(&self) -> Option<Seq<char>> {
        self.base.message()
    }

    fn is_success(&self) -> (r: bool) {
        self.base.is_success()
    }

    fn error_code(&self) -> (r: i32) {
        self.base.error_code()
    }

    fn error_msg(&self) -> (r: Option<String>) {
        self.base.error_msg()
    }

    fn error_desc(&self) -> (r: String)
        ensures
            r@ == errno_desc(self.base.errno, opt_view(self.base.errmsg)),
    {
        self.base.error_desc()
    }
}

/// One page of a recursive listing (older form).
pub struct RFileListResponse {
    pub base: BaiduApiErrNoResponse,
    pub has_more: i32,
    pub cursor: i32,
    pub list: Option<Vec<FileInfo>>,
}

impl ApiResponse for RFileListResponse {
    open spec fn succeeded(&self) -> bool {
        self.base.succeeded()
    }

    open spec fn code(&self) -> i32 {
        self.base.code()
    }

    open spec fn message(&self) -> Option<Seq<char>> {
        self.base.message()
    }

    fn is_success(&self) -> (r: bool) {
        self.base.is_success()
    }

    fn error_code(&self) -> (r: i32) {
        self.base.error_code()
    }

    fn error_msg(&self) -> (r: Option<String>) {
        self.base.error_msg()
    }

    fn error_desc(&self) -> (r: String)
        ensures
            r@ == errno_desc(self.base.errno, opt_view(self.base.errmsg)),
    {
        self.base.error_desc()
    }
}

/// Documents listing.
pub struct DocFileListResponse {
    pub base: BaiduApiErrNoResponse,
    pub guid: Option<u32>,
    pub guid_info: Option<String>,
    pub list: Option<Vec<FileInfo>>,
}

impl ApiResponse for DocFileListResponse {
    open spec fn succeeded(&self) -> bool {
        self.base.succeeded()
    }

    open spec fn code(&self) -> i32 {
        self.base.code()
    }

    open spec fn message(&self) -> Option<Seq<char>> {
        self.base.message()
    }

    fn is_success(&self) -> (r: bool) {
        self.base.is_success()
    }

    fn error_code(&self) -> (r: i32) {
        self.base.error_code()
    }

    fn error_msg(&self) -> (r: Option<String>) {
        self.base.error_msg()
    }

    fn error_desc(&self) -> (r: String)
        ensures
            r@ == errno_desc(self.base.errno, opt_view(self.base.errmsg)),
    {
        self.base.error_desc()
    }
}

/// Pictures listing.
pub struct PicFileListResponse {
    pub base: BaiduApiErrNoResponse,
    pub guid: Option<u32>,
    pub guid_info: Option<String>,
    pub info: Option<Vec<FileInfo>>,
}

impl ApiResponse for PicFileListResponse {
    open spec fn succeeded(&self) -> bool {
        self.base.succeeded()
    }

    open spec fn code(&self) -> i32 {
        self.base.code()
    }

    open spec fn message(&self) -> Option<Seq<char>> {
        self.base.message()
    }

    fn is_success(&self) -> (r: bool) {
        self.base.is_success()
    }

    fn error_code(&self) -> (r: i32) {
        self.base.error_code()
    }

    fn error_msg(&self) -> (r: Option<String>) {
        self.base.error_msg()
    }

    fn error_desc(&self) -> (r: String)
        ensures
            r@ == errno_desc(self.base.errno, opt_view(self.base.errmsg)),
    {
        self.base.error_desc()
    }
}

/// Videos listing.
pub struct VideoFileListResponse {
    pub base: BaiduApiErrNoResponse,
    pub guid: Option<u32>,
    pub guid_info: Option<String>,
    pub info: Option<Vec<FileInfo>>,
}

impl ApiResponse for VideoFileListResponse {
    open spec fn succeeded(&self) -> bool {
        self.base.succeeded()
    }

    open spec fn code(&self) -> i32 {
        self.base.code()
    }

    open spec fn message(&self) -> Option<Seq<char>> {
        self.base.message()
    }

    fn is_success(&self) -> (r: bool) {
        self.base.is_success()
    }

    fn error_code(&self) -> (r: i32) {
        self.base.error_code()
    }

    fn error_msg(&self) -> (r: Option<String>) {
        self.base.error_msg()
    }

    fn error_desc(&self) -> (r: String)
        ensures
            r@ == errno_desc(self.base.errno, opt_view(self.base.errmsg)),
    {
        self.base.error_desc()
    }
}

/// Torrents listing.
pub struct BtFileListResponse {
    pub base: BaiduApiErrNoResponse,
    pub guid: Option<u32>,
    pub guid_info: Option<String>,
    pub info: Option<Vec<FileInfo>>,
}

impl ApiResponse for BtFileListResponse {
    open spec fn succeeded(&self) -> bool {
        self.base.succeeded()
    }

    open spec fn code(&self) -> i32 {
        self.base.code()
    }

    open spec fn message(&self) -> Option<Seq<char>> {
        self.base.message()
    }

    fn is_success(&self) -> (r: bool) {
        self.base.is_success()
    }

    fn error_code(&self) -> (r: i32) {
        self.base.error_code()
    }

    fn error_msg(&self) -> (r: Option<String>) {
        self.base.error_msg()
    }

    fn error_desc(&self) -> (r: String)
        ensures
            r@ == errno_desc(self.base.errno, opt_view(self.base.errmsg)),
    {
        self.base.error_desc()
    }
}

/// Totals for one category.
#[derive(Clone, Debug)]
pub struct CategoryStats {
    pub total: u64,
    pub size: u64,
    pub count: u64,
}

/// Totals per category.
pub struct CategoryInfoResponse {
    pub base: BaiduApiErrNoResponse,
    pub info: HashMap<String, CategoryStats>,
}

impl ApiResponse for CategoryInfoResponse {
    open spec fn succeeded(&self) -> bool {
        self.base.succeeded()
    }

    open spec fn code(&self) -> i32 {
        self.base.code()
    }

    open spec fn message(&self) -> Option<Seq<char>> {
        self.base.message()
    }

    fn is_success(&self) -> (r: bool) {
        self.base.is_success()
    }

    fn error_code(&self) -> (r: i32) {
        self.base.error_code()
    }

    fn error_msg(&self) -> (r: Option<String>) {
        self.base.error_msg()
    }

    fn error_desc(&self) -> (r: String)
        ensures
            r@ == errno_desc(self.base.errno, opt_view(self.base.errmsg)),
    {
        self.base.error_desc()
    }
}

/// Outcome of a file operation (older form).
pub struct ManageFileResponse {
    pub base: BaiduApiErrNoResponse,

}

impl ApiResponse for ManageFileResponse {
    open spec fn succeeded(&self) -> bool {
        self.base.succeeded()
    }

    open spec fn code(&self) -> i32 {
        self.base.code()
    }

    open spec fn message(&self) -> Option<Seq<char>> {
        self.base.message()
    }

    fn is_success(&self) -> (r: bool) {
        self.base.is_success()
    }

    fn error_code(&self) -> (r: i32) {
        self.base.error_code()
    }

    fn error_msg(&self) -> (r: Option<String>) {
        self.base.error_msg()
    }

    fn error_desc(&self) -> (r: String)
        ensures
            r@ == errno_desc(self.base.errno, opt_view(self.base.errmsg)),
    {
        self.base.error_desc()
    }
}

} // verus!
