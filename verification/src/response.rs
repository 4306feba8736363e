//! The HTTP responses of the `rpgmv://` protocol, as plain values that the
//! application turns into its web view's response type.
use vstd::prelude::*;
use vstd::utf8::*;
use crate::assets::{
    asset_path_text_spec, content_type, is_portable_path, slash_names, string_views, content_type_for, file_extension, is_plain_name,
    lemma_parse_range_bounds, parse_range, parse_range_spec, resolve_rpg_maker_asset_path,
};
use crate::numbers::{decimal, decimal_parses_back, parse_usize_spec, push_decimal};
use crate::text::{push_str, str_eq, string_from_chars, utf8_bytes};

verus! {

/// One header line of a response.
pub struct HttpHeader {
    pub name: String,
    pub value: String,
}

/// A complete HTTP response: status code, header lines in order, and body.
pub struct AssetResponse {
    pub status: u16,
    pub headers: Vec<HttpHeader>,
    pub body: Vec<u8>,
}

/// The name and value of each header, in order.
pub open spec fn header_views(headers: Seq<HttpHeader>) -> Seq<(Seq<char>, Seq<char>)> {
    headers.map_values(|h: HttpHeader| (h.name@, h.value@))
}

/// The headers that every response of the protocol carries first: its media
/// type, then permission for any origin to fetch with `GET` and `OPTIONS`,
/// then support for byte ranges.
pub open spec fn standard_headers(content_type: Seq<char>) -> Seq<(Seq<char>, Seq<char>)> {
    seq![
        ("content-type"@, content_type),
        ("access-control-allow-origin"@, "*"@),
        ("access-control-allow-methods"@, "GET, OPTIONS"@),
        ("access-control-allow-headers"@, "*"@),
        ("accept-ranges"@, "bytes"@),
    ]
}

fn header(name: &str, value: String) -> (r: HttpHeader)
    ensures
        r.name@ == name@,
        r.value@ == value@,
{
    HttpHeader { name: name.to_owned(), value }
}

/// A response with the standard headers for `content_type`, followed by
/// `headers`.
pub fn response_with_headers(
    status: u16,
    content_type: &str,
    body: Vec<u8>,
    headers: Vec<HttpHeader>,
) -> (r: AssetResponse)
    ensures
        r.status == status,
        r.body@ == body@,
        header_views(r.headers@) == standard_headers(content_type@) + header_views(headers@),
{
    let mut all: Vec<HttpHeader> = Vec::new();
    all.push(header("content-type", content_type.to_owned()));
    all.push(header("access-control-allow-origin", "*".to_owned()));
    all.push(header("access-control-allow-methods", "GET, OPTIONS".to_owned()));
    all.push(header("access-control-allow-headers", "*".to_owned()));
    all.push(header("accept-ranges", "bytes".to_owned()));
    let ghost first = all@;
    let mut extra = headers;
    let ghost extra_views = header_views(extra@);
    all.append(&mut extra);
    assert(header_views(all@) =~= header_views(first) + extra_views);
    assert(header_views(first) =~= standard_headers(content_type@));
    AssetResponse { status, headers: all, body }
}

/// A response with only the standard headers.
pub fn response(status: u16, content_type: &str, body: Vec<u8>) -> (r: AssetResponse)
    ensures
        r.status == status,
        r.body@ == body@,
        header_views(r.headers@) == standard_headers(content_type@),
{
    let r = response_with_headers(status, content_type, body, Vec::new());
    assert(header_views(Seq::<HttpHeader>::empty()) =~= Seq::<(Seq<char>, Seq<char>)>::empty());
    assert(standard_headers(content_type@) + Seq::<(Seq<char>, Seq<char>)>::empty()
        =~= standard_headers(content_type@));
    r
}

/// The `Content-Range` value for bytes `start..=end` of a file of `length` bytes.
pub open spec fn content_range_value(start: nat, end: nat, length: nat) -> Seq<char> {
    "bytes "@ + decimal(start) + "-"@ + decimal(end) + "/"@ + decimal(length)
}

/// Whether `r` serves `contents`, the file named `file_name`, for a request
/// with the `Range` header value `range`: the byte range that `range` asks for
/// with status 206 and a `Content-Range` header where it asks for one the file
/// has, and otherwise the whole file with status 200; `Content-Length` is the
/// length of the body in either case.
pub open spec fn serves_contents(
    r: AssetResponse,
    range: Option<&str>,
    file_name: Seq<char>,
    contents: Seq<u8>,
) -> bool {
    let media = content_type_for(file_extension(file_name));
    let length = contents.len();
    match (if let Some(text) = range {
        parse_range_spec(text@, length as usize)
    } else {
        None
    }) {
        Some((start, end)) => {
            &&& r.status == 206
            &&& r.body@ == contents.subrange(start as int, end as int + 1)
            &&& header_views(r.headers@) == standard_headers(media) + seq![
                ("content-range"@, content_range_value(start as nat, end as nat, length)),
                ("content-length"@, decimal((end - start + 1) as nat)),
            ]
        },
        None => {
            &&& r.status == 200
            &&& r.body@ == contents
            &&& header_views(r.headers@) == standard_headers(media) + seq![
                ("content-length"@, decimal(length)),
            ]
        },
    }
}

/// The response that serves `contents`, the file named `file_name`: the byte
/// range that `range` asks for with status 206 and a `Content-Range` header
/// where it asks for one the file has, and otherwise the whole file with
/// status 200; `Content-Length` is the length of the body in either case.
pub fn rpg_maker_asset_response(range: Option<&str>, file_name: &str, contents: Vec<u8>) -> (r:
    AssetResponse)
    ensures
        serves_contents(r, range, file_name@, contents@),
{
    let media = content_type(file_name);
    let length = contents.len();
    let requested = match range {
        Some(text) => parse_range(text, length),
        None => None,
    };
    match requested {
        Some((start, end)) => {
            let mut body: Vec<u8> = Vec::new();
            let mut i = start;
            while i <= end
                invariant
                    start <= i <= end + 1,
                    end < contents.len(),
                    body@ == contents@.subrange(start as int, i as int),
                decreases end + 1 - i,
            {
                body.push(contents[i]);
                i += 1;
            }
            let mut range_text: Vec<char> = Vec::new();
            push_str(&mut range_text, "bytes ");
            push_decimal(start, &mut range_text);
            push_str(&mut range_text, "-");
            push_decimal(end, &mut range_text);
            push_str(&mut range_text, "/");
            push_decimal(length, &mut range_text);
            let mut length_text: Vec<char> = Vec::new();
            push_decimal(end - start + 1, &mut length_text);
            let mut headers: Vec<HttpHeader> = Vec::new();
            headers.push(header("content-range", string_from_chars(&range_text)));
            headers.push(header("content-length", string_from_chars(&length_text)));
            let r = response_with_headers(206, media, body, headers);
            assert(range_text@ =~= content_range_value(start as nat, end as nat, length as nat));
            assert(length_text@ =~= decimal((end - start + 1) as nat));
            assert(header_views(headers@) =~= seq![
                ("content-range"@, content_range_value(start as nat, end as nat, length as nat)),
                ("content-length"@, decimal((end - start + 1) as nat)),
            ]);
            r
        },
        None => {
            let mut length_text: Vec<char> = Vec::new();
            push_decimal(length, &mut length_text);
            let mut headers: Vec<HttpHeader> = Vec::new();
            headers.push(header("content-length", string_from_chars(&length_text)));
            assert(length_text@ =~= decimal(length as nat));
            assert(header_views(headers@) =~= seq![("content-length"@, decimal(length as nat))]);
            response_with_headers(200, media, contents, headers)
        },
    }
}


/// Whether `r` is a response with only the standard headers, the given
/// status and media type, and the UTF-8 bytes of `text` as body.
pub open spec fn is_text_response(r: AssetResponse, status: u16, media: Seq<char>, text: Seq<char>) -> bool {
    &&& r.status == status
    &&& r.body@ == encode_utf8(text)
    &&& header_views(r.headers@) == standard_headers(media)
}

fn text_response(status: u16, media: &str, text: &str) -> (r: AssetResponse)
    ensures
        is_text_response(r, status, media@, text@),
{
    response(status, media, utf8_bytes(text))
}

/// What serving a request takes next: a response that needs no file, or
/// reading the file with these names below `www`.
pub enum ServePlan {
    Respond(AssetResponse),
    ReadFile(Vec<String>),
}

/// How serving starts: an `OPTIONS` request is answered with 204 and no body;
/// a path that names no file inside `www` with 400; any other request reads
/// the file it names, each name a plain one.
pub fn plan_asset_request(is_options: bool, request_path: &str) -> (r: ServePlan)
    ensures
        is_options ==> (r matches ServePlan::Respond(resp) && is_text_response(
            resp,
            204,
            "text/plain"@,
            Seq::empty(),
        )),
        !is_options ==> match r {
            ServePlan::Respond(resp) => is_text_response(
                resp,
                400,
                "text/plain"@,
                "invalid RPG Maker asset path"@,
            ),
            ServePlan::ReadFile(names) => asset_path_text_spec(request_path@) is Some && forall|i: int|
                0 <= i < names@.len() ==> is_plain_name(#[trigger] names@[i]@),
        },
        !is_options && asset_path_text_spec(request_path@) is None ==> r is Respond,
        !is_options ==> (asset_path_text_spec(request_path@) matches Some(t) ==> (slash_names(t) is None
            ==> r is Respond)),
        !is_options ==> (asset_path_text_spec(request_path@) matches Some(t) ==> (is_portable_path(t)
            ==> match slash_names(t) {
            None => r is Respond,
            Some(ns) => r matches ServePlan::ReadFile(names) && string_views(names@) == ns,
        })),
{
    if is_options {
        let r = response(204, "text/plain", Vec::new());
        assert(r.body@ =~= encode_utf8(Seq::empty()));
        return ServePlan::Respond(r);
    }
    match resolve_rpg_maker_asset_path(request_path) {
        Some(names) => ServePlan::ReadFile(names),
        None => ServePlan::Respond(
            text_response(400, "text/plain", "invalid RPG Maker asset path"),
        ),
    }
}

/// The outcome of reading the requested file.
pub enum AssetRead {
    Contents(Vec<u8>),
    NotFound,
    Failed(String),
}

/// The script served for `/VirtualController.js` where the game has none.
pub const VIRTUAL_CONTROLLER_SHIM: &'static str = "// Optional RPG Maker mobile controller shim for desktop runtime.\n";

/// The response to a request for `request_path`, whose file `file_name` was
/// read with outcome `read`: its contents (see `serves_contents`); for a
/// missing `/VirtualController.js` an empty stand-in script; 404 for another
/// missing file; 500 with the error for any other failure.
pub fn asset_read_response(
    request_path: &str,
    file_name: &str,
    range: Option<&str>,
    read: AssetRead,
) -> (r: AssetResponse)
    ensures
        match read {
            AssetRead::Contents(contents) => serves_contents(r, range, file_name@, contents@),
            AssetRead::NotFound => if request_path@ == "/VirtualController.js"@ {
                is_text_response(
                    r,
                    200,
                    "text/javascript; charset=utf-8"@,
                    VIRTUAL_CONTROLLER_SHIM@,
                )
            } else {
                is_text_response(r, 404, "text/plain"@, "not found"@)
            },
            AssetRead::Failed(message) => is_text_response(
                r,
                500,
                "text/plain"@,
                "failed to read RPG Maker asset: "@ + message@,
            ),
        },
{
    match read {
        AssetRead::Contents(contents) => rpg_maker_asset_response(range, file_name, contents),
        AssetRead::NotFound => {
            if str_eq(request_path, "/VirtualController.js") {
                text_response(200, "text/javascript; charset=utf-8", VIRTUAL_CONTROLLER_SHIM)
            } else {
                text_response(404, "text/plain", "not found")
            }
        },
        AssetRead::Failed(message) => {
            let mut text: Vec<char> = Vec::new();
            push_str(&mut text, "failed to read RPG Maker asset: ");
            push_str(&mut text, message.as_str());
            let whole = string_from_chars(&text);
            text_response(500, "text/plain", whole.as_str())
        },
    }
}


/// Every response that serves a file ends its headers with a
/// `Content-Length` that is the length of its body, and reads back as it.
pub proof fn content_length_is_body_length(
    r: AssetResponse,
    range: Option<&str>,
    file_name: Seq<char>,
    contents: Seq<u8>,
)
    requires
        serves_contents(r, range, file_name, contents),
    ensures
        header_views(r.headers@).len() > 0,
        header_views(r.headers@).last() == ("content-length"@, decimal(r.body@.len())),
        r.body@.len() <= usize::MAX ==> parse_usize_spec(header_views(r.headers@).last().1) == Some(
            r.body@.len() as usize,
        ),
{
    if r.body@.len() <= usize::MAX {
        decimal_parses_back(r.body@.len());
    }
}

/// A range that a response serves lies inside the file, and the
/// `Content-Range` header states it with the file's length.
pub proof fn served_range_is_inside_file(
    r: AssetResponse,
    range: Option<&str>,
    file_name: Seq<char>,
    contents: Seq<u8>,
)
    requires
        serves_contents(r, range, file_name, contents),
        r.status == 206,
    ensures
        exists|start: nat, end: nat|
            start <= end < contents.len() && r.body@ == contents.subrange(start as int, end as int + 1)
                && header_views(r.headers@).contains(
                ("content-range"@, content_range_value(start, end, contents.len())),
            ),
{
    let requested = if let Some(text) = range {
        parse_range_spec(text@, contents.len() as usize)
    } else {
        None
    };
    if let Some((start, end)) = requested {
        let hs = header_views(r.headers@);
        let media = content_type_for(file_extension(file_name));
        assert(hs[standard_headers(media).len() as int] == (
            "content-range"@,
            content_range_value(start as nat, end as nat, contents.len()),
        ));
        assert(start <= end < contents.len()) by {
            lemma_parse_range_bounds(range->0@, contents.len() as usize);
        }
        assert(contents.subrange(start as int, end + 1) == r.body@);
        assert(start as nat <= end as nat && (end as nat) < contents.len()
            && r.body@ == contents.subrange(start as nat as int, end as nat as int + 1)
            && hs.contains(("content-range"@, content_range_value(start as nat, end as nat, contents.len()))));
    }
}

} // verus!
