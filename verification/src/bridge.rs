//! The answers of the bridge commands that the game's page invokes.
use vstd::prelude::*;
use crate::text::{trim, trim_str};

verus! {

/// Why a bridge command failed: a stable code, a message, and optional details.
pub struct BridgeError {
    pub code: &'static str,
    pub message: String,
    pub details: Option<String>,
}

/// The answer to a bridge command: on success its data, on failure its error.
pub struct BridgeResponse<T> {
    pub ok: bool,
    pub data: Option<T>,
    pub error: Option<BridgeError>,
}

impl<T> BridgeResponse<T> {
    /// A successful answer carrying `data`.
    pub fn ok(data: T) -> (r: Self)
        ensures
            r.ok,
            r.data == Some(data),
            r.error is None,
    {
        BridgeResponse { ok: true, data: Some(data), error: None }
    }

    /// A failed answer with the error `code` and `message`, and no details.
    pub fn error(code: &'static str, message: String) -> (r: Self)
        ensures
            !r.ok,
            r.data is None,
            r.error matches Some(e) && e.code == code && e.message == message && e.details is None,
    {
        BridgeResponse {
            ok: false,
            data: None,
            error: Some(BridgeError { code, message, details: None }),
        }
    }
}

/// The answer to an audio command whose operation ended with `result`:
/// success, or the error `native_audio_failed` with the operation's message.
pub fn audio_operation_response(result: Result<(), String>) -> (r: BridgeResponse<()>)
    ensures
        r.ok <==> result is Ok,
        result is Ok ==> r.data == Some(()) && r.error is None,
        result matches Err(m) ==> r.data is None && (r.error matches Some(e) && e.code
            == "native_audio_failed" && e.message == m && e.details is None),
{
    match result {
        Ok(()) => BridgeResponse::ok(()),
        Err(message) => BridgeResponse::error("native_audio_failed", message),
    }
}

/// Whether the page's title `title` is applied to the window: a blank title
/// leaves the window's title as it is.
pub fn should_sync_window_title(title: &str) -> (r: bool)
    ensures
        r == (trim(title@).len() > 0),
{
    let trimmed = trim_str(title);
    !trimmed.as_str().is_empty()
}

} // verus!
