use bftp::requests::{
    api_url, authorize_url, copy_filelist, create_dir_body, create_file_body, delete_filelist, download_url,
    file_metas_url, filemanager_body, filemanager_url, list_all_url, list_files_url, locate_upload_url,
    precreate_body, quota_url, range_between, range_from, rename_filelist, search_url, semantic_search_url,
    upload_chunk_url, user_info_url,
};
use serde_json::Value;

fn object(pairs: &[(&str, &str)]) -> String {
    let mut m = serde_json::Map::new();
    for (k, v) in pairs {
        m.insert(k.to_string(), Value::String(v.to_string()));
    }
    serde_json::to_string(&vec![Value::Object(m)]).unwrap()
}

#[test]
fn api_urls() {
    assert_eq!(api_url("T", "/xpan/x?m=1"), "https://pan.baidu.com/rest/2.0/xpan/x?m=1&access_token=T");
    assert_eq!(
        user_info_url("T"),
        "https://pan.baidu.com/rest/2.0/xpan/nas?method=uinfo&vip_version=v2&access_token=T"
    );
    assert_eq!(
        list_files_url("T", "/a b"),
        "https://pan.baidu.com/rest/2.0/xpan/file?method=list&access_token=T&dir=/a b"
    );
    assert_eq!(
        file_metas_url("T", &[1, 22]),
        "https://pan.baidu.com/rest/2.0/xpan/multimedia?method=filemetas&access_token=T&fsids=[1,22]&dlink=1"
    );
    assert_eq!(
        list_all_url("T", "/我的", 1000),
        format!(
            "https://pan.baidu.com/rest/2.0/xpan/multimedia?method=listall&access_token=T&path={}&recursion=1&start=1000&limit=1000",
            urlencoding::encode("/我的")
        )
    );
    assert_eq!(download_url("https://d/x?a=1", "T"), "https://d/x?a=1&access_token=T");
    assert_eq!(quota_url("T"), "https://pan.baidu.com/api/quota?access_token=T");
    assert_eq!(
        authorize_url("cid", "oob"),
        "https://openapi.baidu.com/oauth/2.0/authorize?response_type=token&client_id=cid&redirect_uri=oob&scope=basic,netdisk"
    );
}

#[test]
fn ranges() {
    assert_eq!(range_from(0), "bytes=0-");
    assert_eq!(range_from(1234), "bytes=1234-");
    assert_eq!(range_between(5, 99), "bytes=5-99");
    assert_eq!(range_between(0, u64::MAX), format!("bytes=0-{}", u64::MAX));
}

#[test]
fn upload_requests() {
    let enc = |s: &str| urlencoding::encode(s).into_owned();
    assert_eq!(
        precreate_body("/a b.txt", 12, "[\"x\"]", None),
        format!("path={}&size=12&isdir=0&block_list={}&autoinit=1&rtype=1", enc("/a b.txt"), enc("[\"x\"]"))
    );
    assert_eq!(
        precreate_body("/f", 0, "[]", Some("u/1")),
        "path=%2Ff&size=0&isdir=0&block_list=%5B%5D&autoinit=1&rtype=1&uploadid=u%2F1"
    );
    assert_eq!(
        locate_upload_url("T", "/f", "U"),
        "https://d.pcs.baidu.com/rest/2.0/pcs/file?method=locateupload&appid=250528&access_token=T&path=%2Ff&uploadid=U&upload_version=2.0"
    );
    assert_eq!(
        upload_chunk_url("https://up", "T", "/f", "U", 3),
        "https://up/rest/2.0/pcs/superfile2?method=upload&access_token=T&type=tmpfile&path=%2Ff&uploadid=U&partseq=3"
    );
    assert_eq!(
        create_file_body("/f", 7, "[]", "U 1"),
        "path=%2Ff&size=7&isdir=0&block_list=%5B%5D&uploadid=U%201&rtype=1"
    );
    assert_eq!(create_dir_body("/新建"), format!("path={}&isdir=1&rtype=0", enc("/新建")));
}

#[test]
fn file_manager_requests() {
    assert_eq!(
        filemanager_url("T", "copy"),
        "https://pan.baidu.com/rest/2.0/xpan/file?method=filemanager&access_token=T&opera=copy&async=0"
    );
    assert_eq!(filemanager_body("[\"/a\"]"), "filelist=%5B%22%2Fa%22%5D");
    assert_eq!(rename_filelist("/a\"b", "c\\d"), object(&[("path", "/a\"b"), ("newname", "c\\d")]));
    assert_eq!(copy_filelist("/a", "/d", "n"), object(&[("path", "/a"), ("dest", "/d"), ("newname", "n")]));
    assert_eq!(delete_filelist("/x\ny"), serde_json::to_string(&["/x\ny"]).unwrap());
}

#[test]
fn search_requests() {
    assert_eq!(
        search_url("T", "a b", None, "/cur", true),
        "https://pan.baidu.com/rest/2.0/xpan/file?method=search&access_token=T&key=a%20b&dir=%2Fcur&recursion=1"
    );
    assert_eq!(
        search_url("T", "k", Some("/d"), "/cur", false),
        "https://pan.baidu.com/rest/2.0/xpan/file?method=search&access_token=T&key=k&dir=%2Fd"
    );
    assert_eq!(
        semantic_search_url("T", "猫", -1, None, "/"),
        format!(
            "https://pan.baidu.com/xpan/unisearch?access_token=T&scene=mcpserver&query={}&search_type=-1&num=500&dir=%2F",
            urlencoding::encode("猫")
        )
    );
}

#[test]
fn json_escapes_like_serde_json() {
    for s in ["plain", "q\"b\\s", "\u{1}\u{8}\t\n\u{c}\r\u{1f}", "\u{7f}é中", ""] {
        assert_eq!(delete_filelist(s), serde_json::to_string(&[s]).unwrap(), "string {:?}", s);
    }
}
