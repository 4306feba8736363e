use taurin::assets::{
    asset_path_text, content_type, from_hex, index_url, parse_range, percent_decode,
    resolve_rpg_maker_asset_path, RPG_MAKER_PROTOCOL_SCHEME,
};

fn names(parts: &[&str]) -> Option<Vec<String>> {
    Some(parts.iter().map(|p| p.to_string()).collect())
}

#[test]
fn from_hex_reads_both_cases() {
    assert_eq!(from_hex(b'0'), Some(0));
    assert_eq!(from_hex(b'9'), Some(9));
    assert_eq!(from_hex(b'a'), Some(10));
    assert_eq!(from_hex(b'f'), Some(15));
    assert_eq!(from_hex(b'A'), Some(10));
    assert_eq!(from_hex(b'F'), Some(15));
    assert_eq!(from_hex(b'g'), None);
    assert_eq!(from_hex(b'G'), None);
    assert_eq!(from_hex(b'%'), None);
}

#[test]
fn percent_decode_decodes_escapes() {
    assert_eq!(percent_decode("img%20a.png"), Some("img a.png".to_string()));
    assert_eq!(percent_decode("%41%62c"), Some("Abc".to_string()));
    assert_eq!(percent_decode("a%2fb"), Some("a/b".to_string()));
    assert_eq!(percent_decode("%E3%81%82.ogg"), Some("あ.ogg".to_string()));
}

#[test]
fn percent_decode_leaves_plain_text() {
    assert_eq!(percent_decode("audio/bgm/Battle1.ogg"), Some("audio/bgm/Battle1.ogg".to_string()));
    assert_eq!(percent_decode(""), Some(String::new()));
    assert_eq!(percent_decode("あいう"), Some("あいう".to_string()));
}

#[test]
fn percent_decode_rejects_malformed_escapes() {
    assert_eq!(percent_decode("%zz"), None);
    assert_eq!(percent_decode("%4"), None);
    assert_eq!(percent_decode("abc%"), None);
    assert_eq!(percent_decode("%g1"), None);
}

#[test]
fn percent_decode_rejects_invalid_utf8() {
    assert_eq!(percent_decode("%FF"), None);
    assert_eq!(percent_decode("%E3%81"), None);
}

#[test]
fn asset_path_text_defaults_to_index() {
    assert_eq!(asset_path_text("/"), Some("index.html".to_string()));
    assert_eq!(asset_path_text(""), Some("index.html".to_string()));
    assert_eq!(asset_path_text("///"), Some("index.html".to_string()));
    assert_eq!(asset_path_text("//js/main.js"), Some("js/main.js".to_string()));
    assert_eq!(asset_path_text("/a%20b"), Some("a b".to_string()));
    assert_eq!(asset_path_text("/%zz"), None);
}

#[test]
fn resolve_splits_into_names() {
    assert_eq!(resolve_rpg_maker_asset_path("/"), names(&["index.html"]));
    assert_eq!(
        resolve_rpg_maker_asset_path("/img/pictures/Actor1.png"),
        names(&["img", "pictures", "Actor1.png"])
    );
    assert_eq!(resolve_rpg_maker_asset_path("/./js//main.js"), names(&["js", "main.js"]));
    assert_eq!(resolve_rpg_maker_asset_path("//etc/hosts"), names(&["etc", "hosts"]));
    assert_eq!(resolve_rpg_maker_asset_path("/audio/se/Cursor%201.ogg"), names(&["audio", "se", "Cursor 1.ogg"]));
}

#[test]
fn resolve_refuses_paths_that_leave_www() {
    assert_eq!(resolve_rpg_maker_asset_path("/../secret.txt"), None);
    assert_eq!(resolve_rpg_maker_asset_path("/img/../../secret.txt"), None);
    assert_eq!(resolve_rpg_maker_asset_path("/img/%2E%2E/%2E%2E/secret"), None);
    assert_eq!(resolve_rpg_maker_asset_path("/%2Fetc/passwd"), None);
    assert_eq!(resolve_rpg_maker_asset_path("/bad%zz"), None);
    assert_eq!(resolve_rpg_maker_asset_path("/%2e%2e/secret.txt"), None);
    assert_eq!(resolve_rpg_maker_asset_path("/img/.."), None);
    assert_eq!(resolve_rpg_maker_asset_path("/.."), None);
    assert_eq!(resolve_rpg_maker_asset_path("/%2Fetc%5Cx"), None);
    assert_eq!(resolve_rpg_maker_asset_path("/a%5Cb/../c"), None);
}

#[test]
fn resolve_decodes_directories_and_names() {
    assert_eq!(
        resolve_rpg_maker_asset_path("/img/pictures/My%20Face.png"),
        names(&["img", "pictures", "My Face.png"])
    );
    assert_eq!(resolve_rpg_maker_asset_path("/img/./faces/."), names(&["img", "faces"]));
    assert_eq!(resolve_rpg_maker_asset_path("/a/.../b"), names(&["a", "...", "b"]));
    assert_eq!(resolve_rpg_maker_asset_path("/."), names(&[]));
    assert_eq!(resolve_rpg_maker_asset_path("/data/ab:c.json"), names(&["data", "ab:c.json"]));
}

#[test]
fn parse_range_reads_explicit_ranges() {
    assert_eq!(parse_range("bytes=0-9", 100), Some((0, 9)));
    assert_eq!(parse_range("bytes=10-", 100), Some((10, 99)));
    assert_eq!(parse_range("bytes=0-1000", 100), Some((0, 99)));
    assert_eq!(parse_range("bytes=5-5", 100), Some((5, 5)));
    assert_eq!(parse_range("bytes=+1-+2", 100), Some((1, 2)));
}

#[test]
fn parse_range_suffix_uses_last_as_both_length_and_end() {
    assert_eq!(parse_range("bytes=-500", 1000), Some((500, 500)));
    assert_eq!(parse_range("bytes=-20", 100), None);
    assert_eq!(parse_range("bytes=-5000", 1000), Some((0, 999)));
}

#[test]
fn parse_range_rejects_other_ranges() {
    assert_eq!(parse_range("bytes=5-3", 100), None);
    assert_eq!(parse_range("items=0-1", 100), None);
    assert_eq!(parse_range("bytes=0-9", 0), None);
    assert_eq!(parse_range("bytes=a-b", 100), None);
    assert_eq!(parse_range("bytes=10", 100), None);
    assert_eq!(parse_range("bytes=-", 100), None);
    assert_eq!(parse_range("bytes=100-", 100), None);
    assert_eq!(parse_range("bytes=0-99999999999999999999999", 100), None);
    assert_eq!(parse_range(" bytes=0-1", 100), None);
}

#[test]
fn content_type_by_extension() {
    assert_eq!(content_type("index.html"), "text/html; charset=utf-8");
    assert_eq!(content_type("main.js"), "text/javascript; charset=utf-8");
    assert_eq!(content_type("System.json"), "application/json; charset=utf-8");
    assert_eq!(content_type("a.css"), "text/css; charset=utf-8");
    assert_eq!(content_type("Actor1.png"), "image/png");
    assert_eq!(content_type("b.jpg"), "image/jpeg");
    assert_eq!(content_type("b.jpeg"), "image/jpeg");
    assert_eq!(content_type("Battle1.ogg"), "audio/ogg");
    assert_eq!(content_type("Battle1.m4a"), "audio/mp4");
    assert_eq!(content_type("mplus-1m-regular.ttf"), "font/ttf");
    assert_eq!(content_type("notes.txt"), "text/plain; charset=utf-8");
}

#[test]
fn content_type_falls_back_to_octet_stream() {
    assert_eq!(content_type("Actor1.PNG"), "application/octet-stream");
    assert_eq!(content_type(".ogg"), "application/octet-stream");
    assert_eq!(content_type("README"), "application/octet-stream");
    assert_eq!(content_type("a."), "application/octet-stream");
    assert_eq!(content_type("data.rpgsave"), "application/octet-stream");
    assert_eq!(content_type("archive.tar.ogg"), "audio/ogg");
    assert_eq!(content_type("..png"), "image/png");
}

#[test]
fn index_url_uses_the_protocol_scheme() {
    assert_eq!(RPG_MAKER_PROTOCOL_SCHEME, "rpgmv");
    assert_eq!(index_url(), "rpgmv://localhost/index.html");
}
