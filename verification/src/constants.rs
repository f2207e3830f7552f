//! Service endpoints and fixed sizes.

use vstd::prelude::*;

verus! {

/// Base URL of the drive API.
pub const PAN_BAIDU_API_BASE: &'static str = "https://pan.baidu.com/rest/2.0";

/// Base URL of the upload service.
pub const D_PCS_BAIDU_BASE: &'static str = "https://d.pcs.baidu.com/rest/2.0/pcs";

/// Path of the chunk upload endpoint on an upload server.
pub const PCS_UPLOAD_PATH: &'static str = "/rest/2.0/pcs/superfile2";

/// OAuth authorization endpoint.
pub const OAUTH_AUTHORIZE_URL: &'static str = "https://openapi.baidu.com/oauth/2.0/authorize";

/// The drive's application id.
pub const APP_ID: &'static str = "250528";

/// Upload protocol version.
pub const UPLOAD_VERSION: &'static str = "2.0";

/// OAuth scope.
pub const OAUTH_SCOPE: &'static str = "basic,netdisk";

/// Size of one upload chunk: 4 MiB.
pub const CHUNK_SIZE: usize = 4194304;

/// [`CHUNK_SIZE`] as a `u64`.
pub const CHUNK_SIZE_U64: u64 = 4194304;

/// Smallest remaining size that is downloaded over several connections.
pub const MULTITHREAD_MIN_SIZE: u64 = 4194304;

/// Connections used by a split download unless told otherwise.
pub const DEFAULT_THREADS: usize = 4;

/// HTTP User-Agent.
pub const USER_AGENT: &'static str = "pan.baidu.com";

} // verus!
