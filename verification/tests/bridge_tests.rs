use taurin::bridge::{audio_operation_response, should_sync_window_title, BridgeResponse};

#[test]
fn ok_response() {
    let r = BridgeResponse::ok(5u32);
    assert!(r.ok);
    assert_eq!(r.data, Some(5));
    assert!(r.error.is_none());
}

#[test]
fn error_response() {
    let r: BridgeResponse<()> = BridgeResponse::error("window_resize_failed", "no window".to_string());
    assert!(!r.ok);
    assert!(r.data.is_none());
    let e = r.error.unwrap();
    assert_eq!(e.code, "window_resize_failed");
    assert_eq!(e.message, "no window");
    assert!(e.details.is_none());
}

#[test]
fn audio_operation_responses() {
    let ok = audio_operation_response(Ok(()));
    assert!(ok.ok);
    assert_eq!(ok.data, Some(()));
    assert!(ok.error.is_none());
    let failed = audio_operation_response(Err("missing file".to_string()));
    assert!(!failed.ok);
    assert!(failed.data.is_none());
    let e = failed.error.unwrap();
    assert_eq!(e.code, "native_audio_failed");
    assert_eq!(e.message, "missing file");
}

#[test]
fn blank_titles_are_not_synced() {
    assert!(should_sync_window_title("Project1"));
    assert!(should_sync_window_title("  a  "));
    assert!(!should_sync_window_title(""));
    assert!(!should_sync_window_title(" \t\n "));
    assert!(!should_sync_window_title("\u{3000}"));
}
