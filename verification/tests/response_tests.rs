use taurin::response::{
    asset_read_response, plan_asset_request, response, response_with_headers,
    rpg_maker_asset_response, AssetRead, AssetResponse, HttpHeader, ServePlan,
    VIRTUAL_CONTROLLER_SHIM,
};

fn headers(r: &AssetResponse) -> Vec<(String, String)> {
    r.headers.iter().map(|h| (h.name.clone(), h.value.clone())).collect()
}

fn standard(content_type: &str) -> Vec<(String, String)> {
    vec![
        ("content-type".to_string(), content_type.to_string()),
        ("access-control-allow-origin".to_string(), "*".to_string()),
        ("access-control-allow-methods".to_string(), "GET, OPTIONS".to_string()),
        ("access-control-allow-headers".to_string(), "*".to_string()),
        ("accept-ranges".to_string(), "bytes".to_string()),
    ]
}

fn with(mut base: Vec<(String, String)>, extra: &[(&str, &str)]) -> Vec<(String, String)> {
    for (n, v) in extra {
        base.push((n.to_string(), v.to_string()));
    }
    base
}

#[test]
fn response_carries_standard_headers() {
    let r = response(404, "text/plain", b"not found".to_vec());
    assert_eq!(r.status, 404);
    assert_eq!(r.body, b"not found".to_vec());
    assert_eq!(headers(&r), standard("text/plain"));
}

#[test]
fn response_with_headers_appends_extra_headers() {
    let extra = vec![HttpHeader { name: "x-a".to_string(), value: "1".to_string() }];
    let r = response_with_headers(200, "image/png", vec![1, 2], extra);
    assert_eq!(r.status, 200);
    assert_eq!(headers(&r), with(standard("image/png"), &[("x-a", "1")]));
}

#[test]
fn whole_file_without_range() {
    let r = rpg_maker_asset_response(None, "a.png", b"abcdefg".to_vec());
    assert_eq!(r.status, 200);
    assert_eq!(r.body, b"abcdefg".to_vec());
    assert_eq!(headers(&r), with(standard("image/png"), &[("content-length", "7")]));
}

#[test]
fn partial_file_with_range() {
    let r = rpg_maker_asset_response(Some("bytes=2-4"), "Battle1.ogg", b"abcdefg".to_vec());
    assert_eq!(r.status, 206);
    assert_eq!(r.body, b"cde".to_vec());
    assert_eq!(
        headers(&r),
        with(standard("audio/ogg"), &[("content-range", "bytes 2-4/7"), ("content-length", "3")])
    );
}

#[test]
fn open_ended_range_runs_to_the_end() {
    let contents: Vec<u8> = (0..200u8).collect();
    let r = rpg_maker_asset_response(Some("bytes=150-"), "x.m4a", contents.clone());
    assert_eq!(r.status, 206);
    assert_eq!(r.body, contents[150..].to_vec());
    assert_eq!(
        headers(&r),
        with(standard("audio/mp4"), &[("content-range", "bytes 150-199/200"), ("content-length", "50")])
    );
}

#[test]
fn unusable_range_serves_whole_file() {
    let r = rpg_maker_asset_response(Some("bytes=9-2"), "a.txt", b"hello".to_vec());
    assert_eq!(r.status, 200);
    assert_eq!(r.body, b"hello".to_vec());
    assert_eq!(headers(&r), with(standard("text/plain; charset=utf-8"), &[("content-length", "5")]));
    let empty = rpg_maker_asset_response(Some("bytes=0-0"), "a.txt", Vec::new());
    assert_eq!(empty.status, 200);
    assert_eq!(headers(&empty), with(standard("text/plain; charset=utf-8"), &[("content-length", "0")]));
}

#[test]
fn options_request_gets_no_content() {
    match plan_asset_request(true, "/index.html") {
        ServePlan::Respond(r) => {
            assert_eq!(r.status, 204);
            assert!(r.body.is_empty());
            assert_eq!(headers(&r), standard("text/plain"));
        }
        ServePlan::ReadFile(_) => panic!("an OPTIONS request reads no file"),
    }
}

#[test]
fn bad_path_gets_bad_request() {
    match plan_asset_request(false, "/../save/file1.rpgsave") {
        ServePlan::Respond(r) => {
            assert_eq!(r.status, 400);
            assert_eq!(r.body, b"invalid RPG Maker asset path".to_vec());
            assert_eq!(headers(&r), standard("text/plain"));
        }
        ServePlan::ReadFile(_) => panic!("a path that leaves www is refused"),
    }
}

#[test]
fn good_path_reads_file() {
    match plan_asset_request(false, "/data/System.json") {
        ServePlan::ReadFile(names) => assert_eq!(names, vec!["data".to_string(), "System.json".to_string()]),
        ServePlan::Respond(_) => panic!("a path inside www is read"),
    }
}

#[test]
fn missing_virtual_controller_gets_stand_in() {
    let r = asset_read_response("/VirtualController.js", "VirtualController.js", None, AssetRead::NotFound);
    assert_eq!(r.status, 200);
    assert_eq!(r.body, VIRTUAL_CONTROLLER_SHIM.as_bytes().to_vec());
    assert_eq!(
        r.body,
        b"// Optional RPG Maker mobile controller shim for desktop runtime.\n".to_vec()
    );
    assert_eq!(headers(&r), standard("text/javascript; charset=utf-8"));
}

#[test]
fn missing_file_gets_not_found() {
    let r = asset_read_response("/img/missing.png", "missing.png", None, AssetRead::NotFound);
    assert_eq!(r.status, 404);
    assert_eq!(r.body, b"not found".to_vec());
    assert_eq!(headers(&r), standard("text/plain"));
}

#[test]
fn read_failure_gets_server_error() {
    let r = asset_read_response("/img", "img", None, AssetRead::Failed("Is a directory (os error 21)".to_string()));
    assert_eq!(r.status, 500);
    assert_eq!(r.body, b"failed to read RPG Maker asset: Is a directory (os error 21)".to_vec());
    assert_eq!(headers(&r), standard("text/plain"));
}

#[test]
fn read_contents_are_served() {
    let r = asset_read_response("/a.json", "a.json", Some("bytes=1-2"), AssetRead::Contents(b"{}x".to_vec()));
    assert_eq!(r.status, 206);
    assert_eq!(r.body, b"}x".to_vec());
    assert_eq!(
        headers(&r),
        with(standard("application/json; charset=utf-8"), &[("content-range", "bytes 1-2/3"), ("content-length", "2")])
    );
}
