//! The `rpgmv://` protocol: which file under `www/` a request names, and the
//! HTTP response that serves it.
use vstd::prelude::*;
use vstd::utf8::*;
use crate::numbers::{
    decimal, decimal_parses_back, is_digit, lemma_decimal_digits, parse_usize, parse_usize_spec,
};
use crate::text::{
    chars_eq_str, chars_of, find_char_from, find_last_char, first_index_of, last_index_of,
    lemma_ascii_byte_absent, lemma_first_index_of, lemma_first_index_of_at, lemma_last_index_of_split, push_str, string_from_chars, string_from_utf8,
    strip_prefix, strip_prefix_chars, sub_chars,
};

verus! {

/// The URI scheme under which the game's files are served.
pub const RPG_MAKER_PROTOCOL_SCHEME: &'static str = "rpgmv";

/// The value of a hexadecimal digit given as an ASCII byte.
pub open spec fn hex_value(byte: u8) -> Option<u8> {
    if 48 <= byte <= 57 {
        Some((byte - 48) as u8)
    } else if 97 <= byte <= 102 {
        Some((byte - 97 + 10) as u8)
    } else if 65 <= byte <= 70 {
        Some((byte - 65 + 10) as u8)
    } else {
        None
    }
}

/// The value of the hexadecimal digit `byte` (either case), if it is one.
pub fn from_hex(byte: u8) -> (r: Option<u8>)
    ensures
        r == hex_value(byte),
        r matches Some(v) ==> v < 16,
{
    if 48 <= byte && byte <= 57 {
        Some(byte - 48)
    } else if 97 <= byte && byte <= 102 {
        Some(byte - 97 + 10)
    } else if 65 <= byte && byte <= 70 {
        Some(byte - 65 + 10)
    } else {
        None
    }
}

/// The bytes that `%XX` escapes in `b` stand for: each `%` followed by two
/// hexadecimal digits becomes the byte they name, every other byte stays;
/// a `%` without two hexadecimal digits after it makes the whole decoding fail.
pub open spec fn percent_decode_bytes(b: Seq<u8>) -> Option<Seq<u8>>
    decreases b.len(),
{
    if b.len() == 0 {
        Some(seq![])
    } else if b[0] == 37 {
        if b.len() >= 3 && hex_value(b[1]) is Some && hex_value(b[2]) is Some {
            match percent_decode_bytes(b.skip(3)) {
                Some(rest) => Some(
                    seq![(hex_value(b[1])->0 * 16 + hex_value(b[2])->0) as u8] + rest,
                ),
                None => None,
            }
        } else {
            None
        }
    } else {
        match percent_decode_bytes(b.drop_first()) {
            Some(rest) => Some(seq![b[0]] + rest),
            None => None,
        }
    }
}

/// The text that the percent-encoded `s` stands for: its UTF-8 bytes decoded,
/// and `None` where an escape is malformed or the result is not UTF-8.
pub open spec fn percent_decode_spec(s: Seq<char>) -> Option<Seq<char>> {
    match percent_decode_bytes(encode_utf8(s)) {
        Some(d) => if valid_utf8(d) {
            Some(decode_utf8(d))
        } else {
            None
        },
        None => None,
    }
}

/// Decodes the `%XX` escapes of `value`; `None` where an escape is malformed
/// or the decoded bytes are not UTF-8.
pub fn percent_decode(value: &str) -> (r: Option<String>)
    ensures
        r is Some <==> percent_decode_spec(value@) is Some,
        r matches Some(s) ==> Some(s@) == percent_decode_spec(value@),
{
    let bytes = value.as_bytes();
    let ghost b = bytes@;
    assert(b == encode_utf8(value@));
    let mut decoded: Vec<u8> = Vec::with_capacity(bytes.len());
    let mut index: usize = 0;
    assert(b.skip(0) =~= b);
    while index < bytes.len()
        invariant
            index <= bytes.len(),
            b == bytes@,
            b == encode_utf8(value@),
            match percent_decode_bytes(b.skip(index as int)) {
                Some(rest) => percent_decode_bytes(b) == Some(decoded@ + rest),
                None => percent_decode_bytes(b) is None,
            },
        decreases bytes.len() - index,
    {
        let ghost t = b.skip(index as int);
        if bytes[index] == 37 {
            if bytes.len() - index < 3 {
                return None;
            }
            let high = match from_hex(bytes[index + 1]) {
                Some(h) => h,
                None => {
                    return None;
                },
            };
            let low = match from_hex(bytes[index + 2]) {
                Some(l) => l,
                None => {
                    return None;
                },
            };
            let ghost before = decoded@;
            decoded.push(high * 16 + low);
            assert(t.skip(3) =~= b.skip(index + 3));
            proof {
                if let Some(rest) = percent_decode_bytes(t.skip(3)) {
                    assert(before + (seq![(high * 16 + low) as u8] + rest) =~= decoded@ + rest);
                }
            }
            index += 3;
        } else {
            let ghost before = decoded@;
            decoded.push(bytes[index]);
            assert(t.drop_first() =~= b.skip(index + 1));
            proof {
                if let Some(rest) = percent_decode_bytes(t.drop_first()) {
                    assert(before + (seq![t[0]] + rest) =~= decoded@ + rest);
                }
            }
            index += 1;
        }
    }
    assert(b.skip(index as int) =~= Seq::<u8>::empty());
    assert(decoded@ + Seq::<u8>::empty() =~= decoded@);
    string_from_utf8(decoded)
}

/// `s` without its leading `/` characters, as `trim_start_matches('/')` gives it.
pub open spec fn trim_leading_slashes(s: Seq<char>) -> Seq<char>
    decreases s.len(),
{
    if s.len() > 0 && s[0] == '/' {
        trim_leading_slashes(s.drop_first())
    } else {
        s
    }
}

proof fn lemma_trim_leading_slashes_at(s: Seq<char>, i: int)
    requires
        0 <= i <= s.len(),
        forall|j: int| 0 <= j < i ==> #[trigger] s[j] == '/',
        i == s.len() || s[i] != '/',
    ensures
        trim_leading_slashes(s) == s.skip(i),
    decreases i,
{
    if i == 0 {
        assert(s.skip(0) =~= s);
    } else {
        let t = s.drop_first();
        assert forall|j: int| 0 <= j < i - 1 implies #[trigger] t[j] == '/' by {
            assert(t[j] == s[j + 1]);
        }
        lemma_trim_leading_slashes_at(t, i - 1);
        assert(t.skip(i - 1) =~= s.skip(i));
    }
}

/// The file that a request path names, before it is split into components:
/// `index.html` where the path is empty once its leading `/`s are gone, and
/// otherwise the percent-decoded rest of the path.
pub open spec fn asset_path_text_spec(request_path: Seq<char>) -> Option<Seq<char>> {
    let rest = trim_leading_slashes(request_path);
    if rest.len() == 0 {
        Some("index.html"@)
    } else {
        percent_decode_spec(rest)
    }
}

/// The relative file path that `request_path` names, percent-decoded; `None`
/// where the decoding fails.
pub fn asset_path_text(request_path: &str) -> (r: Option<String>)
    ensures
        r is Some <==> asset_path_text_spec(request_path@) is Some,
        r matches Some(s) ==> Some(s@) == asset_path_text_spec(request_path@),
{
    let v = chars_of(request_path);
    let mut i: usize = 0;
    while i < v.len() && v[i] == '/'
        invariant
            i <= v.len(),
            forall|j: int| 0 <= j < i ==> #[trigger] v@[j] == '/',
        decreases v.len() - i,
    {
        i += 1;
    }
    proof {
        lemma_trim_leading_slashes_at(v@, i as int);
    }
    if i == v.len() {
        let s = "index.html";
        return Some(s.to_owned());
    }
    let rest = string_from_chars(&sub_chars(&v, i, v.len()));
    assert(rest@ =~= v@.skip(i as int));
    percent_decode(rest.as_str())
}


/// One component of a file path, as `std::path::Component` classifies it.
pub enum AssetPathComponent {
    Prefix,
    RootDir,
    CurDir,
    ParentDir,
    Normal(String),
}

/// A file or directory name that stays inside the directory it is joined to:
/// not empty, not `.` or `..`, and without a `/`.
pub open spec fn is_plain_name(name: Seq<char>) -> bool {
    &&& name.len() > 0
    &&& name != seq!['.']
    &&& name != seq!['.', '.']
    &&& !name.contains('/')
}

/// A path that every platform splits alike: without `\`, which separates on
/// Windows only, and without a `:` after its first character, where it
/// would make a Windows drive prefix.
pub open spec fn is_portable_path(path: Seq<char>) -> bool {
    !path.contains('\\') && !(path.len() >= 2 && path[1] == ':')
}

/// The segments of `path` between its `/` separators, in order, empty ones
/// included.
pub open spec fn slash_segments(path: Seq<char>) -> Seq<Seq<char>>
    decreases path.len(),
{
    match first_index_of(path, '/') {
        None => seq![path],
        Some(k) => {
            proof {
                lemma_first_index_of(path, '/');
            }
            seq![path.take(k)] + slash_segments(path.skip(k + 1))
        },
    }
}

/// The names that `segments` join below a directory: empty and `.` segments
/// are dropped and the others kept in order; `None` where one is `..`.
pub open spec fn segment_names(segments: Seq<Seq<char>>) -> Option<Seq<Seq<char>>>
    decreases segments.len(),
{
    if segments.len() == 0 {
        Some(seq![])
    } else {
        match segment_names(segments.drop_first()) {
            None => None,
            Some(rest) => if segments[0] == seq!['.', '.'] {
                None
            } else if segments[0].len() == 0 || segments[0] == seq!['.'] {
                Some(rest)
            } else {
                Some(seq![segments[0]] + rest)
            },
        }
    }
}

/// The names below a directory that the `/`-separated relative path `path`
/// names: `None` where it starts with `/` (a root) or has a `..` segment;
/// otherwise its segments without the empty ones and `.`, in order.
pub open spec fn slash_names(path: Seq<char>) -> Option<Seq<Seq<char>>> {
    if path.len() > 0 && path[0] == '/' {
        None
    } else {
        segment_names(slash_segments(path))
    }
}

/// `Path::components` on `path`, each component classified by its variant.
///
/// The split depends on the platform where a path holds `\\` or begins with
/// a drive such as `C:` (a separator and a prefix on Windows only), so the
/// contract names no result; it states what the std documentation gives on
/// every platform. `/` separates everywhere, so a path that starts with `/` is
/// a root (or, on Windows, starts a `//` prefix), and a `..` between `/`s is
/// `ParentDir` (or lies inside a prefix): where `slash_names` refuses the path,
/// some component is a root, a prefix or `..`. On a portable path (see
/// `is_portable_path`), repeated separators and `.` after the start are
/// skipped and a leading `.` is `CurDir`, so the names it joins below a
/// directory are `slash_names(path)`. On any path without a prefix, a `Normal`
/// component is a plain name.
#[verifier::external_body]
fn path_components(path: &str) -> (r: Vec<AssetPathComponent>)
    ensures
        is_portable_path(path@) ==> relative_names(r@) == slash_names(path@),
        slash_names(path@) is None ==> relative_names(r@) is None,
        (forall|i: int| 0 <= i < r@.len() ==> !(#[trigger] r@[i] is Prefix)) ==> forall|i: int|
            0 <= i < r@.len() ==> (#[trigger] r@[i] matches AssetPathComponent::Normal(n)
                ==> is_plain_name(n@)),
{
    let mut out = Vec::new();
    for component in std::path::Path::new(path).components() {
        out.push(
            match component {
                std::path::Component::Prefix(_) => AssetPathComponent::Prefix,
                std::path::Component::RootDir => AssetPathComponent::RootDir,
                std::path::Component::CurDir => AssetPathComponent::CurDir,
                std::path::Component::ParentDir => AssetPathComponent::ParentDir,
                std::path::Component::Normal(name) => AssetPathComponent::Normal(
                    name.to_string_lossy().into_owned(),
                ),
            },
        );
    }
    out
}

/// The names that a path made of `components` joins below a directory, or
/// `None` where a component could leave it (a prefix, a root or `..`):
/// `.` components are dropped and normal ones kept in order.
pub open spec fn relative_names(components: Seq<AssetPathComponent>) -> Option<Seq<Seq<char>>>
    decreases components.len(),
{
    if components.len() == 0 {
        Some(seq![])
    } else {
        match relative_names(components.drop_first()) {
            None => None,
            Some(rest) => match components[0] {
                AssetPathComponent::Normal(name) => Some(seq![name@] + rest),
                AssetPathComponent::CurDir => Some(rest),
                _ => None,
            },
        }
    }
}

/// The views of a vector of strings.
pub open spec fn string_views(v: Seq<String>) -> Seq<Seq<char>> {
    v.map_values(|s: String| s@)
}

/// The names that `components` joins below a directory, or `None` where one
/// of them is a prefix, a root or `..`.
pub fn safe_relative_names(components: &Vec<AssetPathComponent>) -> (r: Option<Vec<String>>)
    ensures
        r is Some <==> relative_names(components@) is Some,
        r matches Some(names) ==> Some(string_views(names@)) == relative_names(components@),
{
    let ghost cs = components@;
    let mut names: Vec<String> = Vec::new();
    let mut i: usize = 0;
    let n = components.len();
    assert(cs.skip(0) =~= cs);
    while i < n
        invariant
            i <= n == cs.len(),
            components@ == cs,
            match relative_names(cs.skip(i as int)) {
                Some(rest) => relative_names(cs) == Some(string_views(names@) + rest),
                None => relative_names(cs) is None,
            },
        decreases n - i,
    {
        let ghost t = cs.skip(i as int);
        let ghost before = names@;
        assert(components@[i as int] == t[0]);
        assert(t.drop_first() =~= cs.skip(i + 1));
        match &components[i] {
            AssetPathComponent::Normal(name) => {
                names.push(name.clone());
                proof {
                    if let Some(rest) = relative_names(t.drop_first()) {
                        assert(string_views(before) + (seq![t[0]->Normal_0@] + rest)
                            =~= string_views(names@) + rest);
                    }
                }
            },
            AssetPathComponent::CurDir => {},
            _ => {
                return None;
            },
        }
        i += 1;
    }
    assert(cs.skip(n as int) =~= Seq::<AssetPathComponent>::empty());
    assert(string_views(names@) + Seq::<Seq<char>>::empty() =~= string_views(names@));
    Some(names)
}

/// The names, relative to the `www` directory, of the file that
/// `request_path` asks for: `None` where the path does not decode, or where
/// it holds a component that could leave `www` (`..`, a root or a prefix).
///
/// Every name returned is a plain name (see `is_plain_name`), so the joined
/// path stays below `www`.
pub fn resolve_rpg_maker_asset_path(request_path: &str) -> (r: Option<Vec<String>>)
    ensures
        asset_path_text_spec(request_path@) is None ==> r is None,
        asset_path_text_spec(request_path@) matches Some(t) ==> (slash_names(t) is None ==> r is None),
        asset_path_text_spec(request_path@) matches Some(t) ==> (is_portable_path(t) ==> match slash_names(
            t,
        ) {
            None => r is None,
            Some(ns) => r matches Some(names) && string_views(names@) == ns,
        }),
        r matches Some(names) ==> forall|i: int|
            0 <= i < names@.len() ==> is_plain_name(#[trigger] names@[i]@),
{
    let text = match asset_path_text(request_path) {
        Some(t) => t,
        None => {
            return None;
        },
    };
    let components = path_components(text.as_str());
    let ghost cs = components@;
    let r = safe_relative_names(&components);
    proof {
        if let Some(names) = &r {
            lemma_relative_names_plain(cs);
            assert forall|i: int| 0 <= i < names@.len() implies is_plain_name(
                #[trigger] names@[i]@,
            ) by {
                assert(string_views(names@)[i] == names@[i]@);
                assert(relative_names(cs)->0[i] == names@[i]@);
            }
        }
    }
    r
}

proof fn lemma_relative_names_plain(cs: Seq<AssetPathComponent>)
    requires
        relative_names(cs) is Some,
        (forall|i: int| 0 <= i < cs.len() ==> !(#[trigger] cs[i] is Prefix)) ==> forall|i: int|
            0 <= i < cs.len() ==> (#[trigger] cs[i] matches AssetPathComponent::Normal(n)
                ==> is_plain_name(n@)),
    ensures
        forall|i: int| 0 <= i < relative_names(cs)->0.len() ==> is_plain_name(
            #[trigger] relative_names(cs)->0[i],
        ),
    decreases cs.len(),
{
    lemma_relative_names_no_prefix(cs);
    if cs.len() > 0 {
        let t = cs.drop_first();
        assert forall|i: int| 0 <= i < t.len() implies !(#[trigger] t[i] is Prefix) by {
            assert(t[i] == cs[i + 1]);
        }
        assert forall|i: int| 0 <= i < t.len() implies (#[trigger] t[i] matches AssetPathComponent::Normal(n)
            ==> is_plain_name(n@)) by {
            assert(t[i] == cs[i + 1]);
        }
        lemma_relative_names_plain(t);
        let rest = relative_names(t)->0;
        if let AssetPathComponent::Normal(name) = cs[0] {
            let all = relative_names(cs)->0;
            assert forall|i: int| 0 <= i < all.len() implies is_plain_name(#[trigger] all[i]) by {
                if i > 0 {
                    assert(all[i] == rest[i - 1]);
                }
            }
        }
    }
}

proof fn lemma_relative_names_no_prefix(cs: Seq<AssetPathComponent>)
    requires
        relative_names(cs) is Some,
    ensures
        forall|i: int| 0 <= i < cs.len() ==> !(#[trigger] cs[i] is Prefix),
    decreases cs.len(),
{
    if cs.len() > 0 {
        let t = cs.drop_first();
        lemma_relative_names_no_prefix(t);
        assert forall|i: int| 0 <= i < cs.len() implies !(#[trigger] cs[i] is Prefix) by {
            if i > 0 {
                assert(cs[i] == t[i - 1]);
            }
        }
    }
}


/// The extension of a file name, as `Path::extension` gives it: the text after
/// the last `.`, and `None` where there is no `.` or the only one begins the name.
pub open spec fn file_extension(name: Seq<char>) -> Option<Seq<char>> {
    match last_index_of(name, '.') {
        Some(k) => if k == 0 {
            None
        } else {
            Some(name.skip(k + 1))
        },
        None => None,
    }
}

/// The media type served for a file with the extension `ext`.
pub open spec fn content_type_for(ext: Option<Seq<char>>) -> Seq<char> {
    match ext {
        Some(e) => if e == "html"@ {
            "text/html; charset=utf-8"@
        } else if e == "js"@ {
            "text/javascript; charset=utf-8"@
        } else if e == "json"@ {
            "application/json; charset=utf-8"@
        } else if e == "css"@ {
            "text/css; charset=utf-8"@
        } else if e == "png"@ {
            "image/png"@
        } else if e == "jpg"@ || e == "jpeg"@ {
            "image/jpeg"@
        } else if e == "ogg"@ {
            "audio/ogg"@
        } else if e == "m4a"@ {
            "audio/mp4"@
        } else if e == "ttf"@ {
            "font/ttf"@
        } else if e == "txt"@ {
            "text/plain; charset=utf-8"@
        } else {
            "application/octet-stream"@
        },
        None => "application/octet-stream"@,
    }
}

/// The media type of the file named `file_name`, chosen by its extension;
/// `application/octet-stream` for any other.
pub fn content_type(file_name: &str) -> (r: &'static str)
    ensures
        r@ == content_type_for(file_extension(file_name@)),
{
    let v = chars_of(file_name);
    let ext = match find_last_char(&v, '.') {
        Some(k) => if k == 0 {
            None
        } else {
            Some(sub_chars(&v, k + 1, v.len()))
        },
        None => None,
    };
    match ext {
        None => "application/octet-stream",
        Some(e) => {
            if chars_eq_str(&e, "html") {
                "text/html; charset=utf-8"
            } else if chars_eq_str(&e, "js") {
                "text/javascript; charset=utf-8"
            } else if chars_eq_str(&e, "json") {
                "application/json; charset=utf-8"
            } else if chars_eq_str(&e, "css") {
                "text/css; charset=utf-8"
            } else if chars_eq_str(&e, "png") {
                "image/png"
            } else if chars_eq_str(&e, "jpg") || chars_eq_str(&e, "jpeg") {
                "image/jpeg"
            } else if chars_eq_str(&e, "ogg") {
                "audio/ogg"
            } else if chars_eq_str(&e, "m4a") {
                "audio/mp4"
            } else if chars_eq_str(&e, "ttf") {
                "font/ttf"
            } else if chars_eq_str(&e, "txt") {
                "text/plain; charset=utf-8"
            } else {
                "application/octet-stream"
            }
        },
    }
}


/// The smaller of two integers.
pub open spec fn min_int(a: int, b: int) -> int {
    if a <= b {
        a
    } else {
        b
    }
}

/// The byte range `(first, last)`, both inclusive, that a `Range` header
/// `bytes=<first>-<last>` asks of a file of `length` bytes.
///
/// The header must start with `bytes=` and hold a `-`; an empty file has no
/// range. An empty `<first>` takes the last `<last>` bytes (at most `length`)
/// as the start; an empty `<last>` means the end of the file; a `<last>` past
/// the end is cut to the last byte. A start after the end gives no range.
pub open spec fn parse_range_spec(range: Seq<char>, length: usize) -> Option<(usize, usize)> {
    match strip_prefix(range, "bytes="@) {
        None => None,
        Some(spec_range) => match first_index_of(spec_range, '-') {
            None => None,
            Some(k) => {
                let first = spec_range.take(k);
                let last = spec_range.skip(k + 1);
                if length == 0 {
                    None
                } else {
                    let start: Option<usize> = if first.len() == 0 {
                        match parse_usize_spec(last) {
                            Some(suffix) => Some((length - min_int(suffix as int, length as int)) as usize),
                            None => None,
                        }
                    } else {
                        parse_usize_spec(first)
                    };
                    let end: Option<usize> = if last.len() == 0 {
                        Some((length - 1) as usize)
                    } else {
                        match parse_usize_spec(last) {
                            Some(e) => Some(min_int(e as int, length - 1) as usize),
                            None => None,
                        }
                    };
                    match (start, end) {
                        (Some(s), Some(e)) => if s <= e {
                            Some((s, e))
                        } else {
                            None
                        },
                        _ => None,
                    }
                }
            },
        },
    }
}

/// The byte range that the `Range` header value `range` asks of a file of
/// `length` bytes, if it asks for one that the file has.
pub fn parse_range(range: &str, length: usize) -> (r: Option<(usize, usize)>)
    ensures
        r == parse_range_spec(range@, length),
        r matches Some((start, end)) ==> start <= end < length,
{
    let v = chars_of(range);
    let rest = match strip_prefix_chars(&v, &chars_of("bytes=")) {
        Some(rest) => rest,
        None => {
            return None;
        },
    };
    assert(rest@.skip(0) =~= rest@);
    let k = match find_char_from(&rest, 0, '-') {
        Some(k) => k,
        None => {
            return None;
        },
    };
    let first = sub_chars(&rest, 0, k);
    let last = sub_chars(&rest, k + 1, rest.len());
    assert(first@ =~= rest@.take(k as int));
    assert(last@ =~= rest@.skip(k + 1));
    if length == 0 {
        return None;
    }
    let start = if first.len() == 0 {
        match parse_usize(&last) {
            Some(suffix) => {
                let taken = if suffix < length {
                    suffix
                } else {
                    length
                };
                length - taken
            },
            None => {
                return None;
            },
        }
    } else {
        match parse_usize(&first) {
            Some(s) => s,
            None => {
                return None;
            },
        }
    };
    let end = if last.len() == 0 {
        length - 1
    } else {
        match parse_usize(&last) {
            Some(e) => if e < length - 1 {
                e
            } else {
                length - 1
            },
            None => {
                return None;
            },
        }
    };
    if start <= end {
        Some((start, end))
    } else {
        None
    }
}


/// The address of the game's start page under the protocol.
pub fn index_url() -> (r: String)
    ensures
        r@ == RPG_MAKER_PROTOCOL_SCHEME@ + "://localhost/index.html"@,
{
    let mut text: Vec<char> = Vec::new();
    push_str(&mut text, RPG_MAKER_PROTOCOL_SCHEME);
    push_str(&mut text, "://localhost/index.html");
    string_from_chars(&text)
}


proof fn lemma_percent_decode_bytes_plain(b: Seq<u8>)
    requires
        !b.contains(37u8),
    ensures
        percent_decode_bytes(b) == Some(b),
    decreases b.len(),
{
    if b.len() > 0 {
        let t = b.drop_first();
        assert(!t.contains(37u8)) by {
            if t.contains(37u8) {
                let i = choose|i: int| 0 <= i < t.len() && t[i] == 37u8;
                assert(b[i + 1] == 37u8);
            }
        }
        lemma_percent_decode_bytes_plain(t);
        assert(seq![b[0]] + t =~= b);
    }
}

/// A path without `%` decodes to itself.
pub proof fn percent_decode_without_escapes(s: Seq<char>)
    requires
        !s.contains('%'),
    ensures
        percent_decode_spec(s) == Some(s),
{
    lemma_ascii_byte_absent(s, '%');
    assert(('%' as u32) as u8 == 37u8);
    lemma_percent_decode_bytes_plain(encode_utf8(s));
    encode_utf8_valid_utf8(s);
    encode_utf8_decode_utf8(s);
}


/// A range that `parse_range_spec` gives lies inside the file.
pub proof fn lemma_parse_range_bounds(range: Seq<char>, length: usize)
    ensures
        parse_range_spec(range, length) matches Some((start, end)) ==> start <= end < length,
{
}


/// Whether `encoded` is `bytes` with some of its bytes (every `%` among them)
/// written as `%XX`, `XX` two hexadecimal digits of either case, and the
/// others as they are.
pub open spec fn is_percent_encoding(encoded: Seq<u8>, bytes: Seq<u8>) -> bool
    decreases bytes.len(),
{
    if bytes.len() == 0 {
        encoded.len() == 0
    } else {
        ||| (bytes[0] != 37 && encoded.len() > 0 && encoded[0] == bytes[0] && is_percent_encoding(
            encoded.drop_first(),
            bytes.drop_first(),
        ))
        ||| (encoded.len() >= 3 && encoded[0] == 37 && hex_value(encoded[1]) is Some && hex_value(
            encoded[2],
        ) is Some && hex_value(encoded[1])->0 * 16 + hex_value(encoded[2])->0 == bytes[0]
            && is_percent_encoding(encoded.skip(3), bytes.drop_first()))
    }
}

proof fn lemma_percent_decode_bytes_encoding(encoded: Seq<u8>, bytes: Seq<u8>)
    requires
        is_percent_encoding(encoded, bytes),
    ensures
        percent_decode_bytes(encoded) == Some(bytes),
    decreases bytes.len(),
{
    if bytes.len() > 0 {
        if bytes[0] != 37 && encoded.len() > 0 && encoded[0] == bytes[0] && is_percent_encoding(
            encoded.drop_first(),
            bytes.drop_first(),
        ) {
            lemma_percent_decode_bytes_encoding(encoded.drop_first(), bytes.drop_first());
        } else {
            lemma_percent_decode_bytes_encoding(encoded.skip(3), bytes.drop_first());
        }
        assert(seq![bytes[0]] + bytes.drop_first() =~= bytes);
    }
}

/// Decoding undoes percent-encoding: where the UTF-8 bytes of `encoded` are
/// those of `s` with any of them (every `%` among them) written as `%XX`,
/// `encoded` decodes to `s`.
pub proof fn percent_decode_round_trip(encoded: Seq<char>, s: Seq<char>)
    requires
        is_percent_encoding(encode_utf8(encoded), encode_utf8(s)),
    ensures
        percent_decode_spec(encoded) == Some(s),
{
    lemma_percent_decode_bytes_encoding(encode_utf8(encoded), encode_utf8(s));
    encode_utf8_valid_utf8(s);
    encode_utf8_decode_utf8(s);
}


/// The extension of a file name is the text after its last `.`, whatever
/// comes before that `.` (any non-empty text, with dots or not), so the media
/// type depends on that text alone.
pub proof fn extension_is_text_after_last_dot(name: Seq<char>, ext: Seq<char>)
    requires
        name.len() > 0,
        !ext.contains('.'),
    ensures
        file_extension(name + seq!['.'] + ext) == Some(ext),
        content_type_for(file_extension(name + seq!['.'] + ext)) == content_type_for(Some(ext)),
{
    lemma_last_index_of_split(name, '.', ext);
    assert((name + seq!['.'] + ext).skip(name.len() as int + 1) =~= ext);
}

/// A name that starts with its only `.` has no extension.
pub proof fn hidden_name_has_no_extension(rest: Seq<char>)
    requires
        !rest.contains('.'),
    ensures
        file_extension(seq!['.'] + rest) is None,
{
    lemma_last_index_of_split(Seq::<char>::empty(), '.', rest);
    assert(Seq::<char>::empty() + seq!['.'] + rest =~= seq!['.'] + rest);
}


/// A request path names the file whose name it percent-encodes: after any
/// number of leading `/`s, a path `rest` whose UTF-8 bytes encode those of
/// `name` (any of them written as `%XX`, every `%` among them) decodes to
/// `name`, whatever characters it holds.
pub proof fn request_path_names_its_file(slashes: Seq<char>, rest: Seq<char>, name: Seq<char>)
    requires
        forall|j: int| 0 <= j < slashes.len() ==> #[trigger] slashes[j] == '/',
        rest.len() > 0,
        rest[0] != '/',
        is_percent_encoding(encode_utf8(rest), encode_utf8(name)),
    ensures
        asset_path_text_spec(slashes + rest) == Some(name),
{
    let p = slashes + rest;
    assert forall|j: int| 0 <= j < slashes.len() implies #[trigger] p[j] == '/' by {
        assert(p[j] == slashes[j]);
    }
    assert(p[slashes.len() as int] == rest[0]);
    lemma_trim_leading_slashes_at(p, slashes.len() as int);
    assert(p.skip(slashes.len() as int) =~= rest);
    percent_decode_round_trip(rest, name);
}

/// A request path of `/`s alone, or empty, names `index.html`.
pub proof fn bare_request_path_names_index(slashes: Seq<char>)
    requires
        forall|j: int| 0 <= j < slashes.len() ==> #[trigger] slashes[j] == '/',
    ensures
        asset_path_text_spec(slashes) == Some("index.html"@),
{
    lemma_trim_leading_slashes_at(slashes, slashes.len() as int);
    assert(slashes.skip(slashes.len() as int) =~= Seq::<char>::empty());
}


/// The `-` after a decimal numeral is the first `-` of the numeral, the `-`
/// and what follows.
proof fn lemma_dash_after_decimal(n: nat, rest: Seq<char>)
    ensures
        first_index_of(decimal(n) + "-"@ + rest, '-') == Some(decimal(n).len() as int),
        (decimal(n) + "-"@ + rest).take(decimal(n).len() as int) == decimal(n),
        (decimal(n) + "-"@ + rest).skip(decimal(n).len() as int + 1) == rest,
{
    reveal_strlit("-");
    lemma_decimal_digits(n);
    let d = decimal(n);
    let s = d + "-"@ + rest;
    assert(s[d.len() as int] == '-');
    assert forall|j: int| 0 <= j < d.len() implies s[j] != '-' by {
        assert(s[j] == d[j]);
        assert(is_digit(d[j]));
    }
    lemma_first_index_of_at(s, '-', d.len() as int);
    assert(s.take(d.len() as int) =~= d);
    assert(s.skip(d.len() as int + 1) =~= rest);
}

proof fn lemma_bytes_prefix(rest: Seq<char>)
    ensures
        strip_prefix("bytes="@ + rest, "bytes="@) == Some(rest),
{
    reveal_strlit("bytes=");
    assert(("bytes="@ + rest).take(6) =~= "bytes="@);
    assert(("bytes="@ + rest).skip(6) =~= rest);
}

/// A range from a byte of the file to its end is served from that byte to
/// the last one: `bytes=<first>-` gives `(first, length - 1)`.
pub proof fn open_ended_range_runs_to_the_end(first: nat, length: usize)
    requires
        first < length,
    ensures
        parse_range_spec("bytes="@ + decimal(first) + "-"@, length) == Some(
            (first as usize, (length - 1) as usize),
        ),
{
    reveal_strlit("-");
    let tail = decimal(first) + "-"@;
    assert(tail =~= decimal(first) + "-"@ + Seq::<char>::empty());
    assert("bytes="@ + decimal(first) + "-"@ =~= "bytes="@ + tail);
    lemma_bytes_prefix(tail);
    lemma_dash_after_decimal(first, Seq::<char>::empty());
    decimal_parses_back(first);
    lemma_decimal_digits(first);
    assert(tail.skip(decimal(first).len() as int + 1).len() == 0);
}

/// A range between two bytes of the file is served as asked:
/// `bytes=<first>-<last>` with `first <= last < length` gives `(first, last)`;
/// a `last` past the end is cut to the last byte.
pub proof fn closed_range_is_served_as_asked(first: nat, last: nat, length: usize)
    requires
        first <= last,
        first < length,
        last <= usize::MAX,
    ensures
        parse_range_spec("bytes="@ + decimal(first) + "-"@ + decimal(last), length) == Some(
            (first as usize, if last < length { last as usize } else { (length - 1) as usize }),
        ),
{
    let tail = decimal(first) + "-"@ + decimal(last);
    assert("bytes="@ + decimal(first) + "-"@ + decimal(last) =~= "bytes="@ + tail);
    lemma_bytes_prefix(tail);
    lemma_dash_after_decimal(first, decimal(last));
    decimal_parses_back(first);
    decimal_parses_back(last);
    lemma_decimal_digits(last);
}

} // verus!
