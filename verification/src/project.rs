//! What the runtime reads from an RPG Maker project: the window title (from
//! `package.json` or the `<title>` of `index.html`) and the window icon.
use vstd::prelude::*;
use vstd::utf8::*;
use crate::text::{
    chars_of, lemma_replace_absent, lemma_replace_keeps_trimmed, lemma_trim_edges,
    lemma_trim_identity, opt_view, replace_all, replace_chars, string_from_chars, string_from_utf8,
    sub_chars, trim, trim_bounds,
};

verus! {

/// The title used where the project names none.
pub const FALLBACK_RPG_MAKER_TITLE: &'static str = "taurin";

/// `s` with the HTML entities `&amp;`, `&lt;`, `&gt;`, `&quot;` and `&#39;`
/// replaced, in that order, each over the whole text.
pub open spec fn decode_html_entities_spec(s: Seq<char>) -> Seq<char> {
    replace_all(
        replace_all(
            replace_all(
                replace_all(replace_all(s, "&amp;"@, "&"@), "&lt;"@, "<"@),
                "&gt;"@,
                ">"@,
            ),
            "&quot;"@,
            "\""@,
        ),
        "&#39;"@,
        "'"@,
    )
}

/// Replaces the five HTML entities that RPG Maker titles use.
pub fn decode_html_entities(value: &str) -> (r: String)
    ensures
        r@ == decode_html_entities_spec(value@),
{
    proof {
        reveal_strlit("&amp;");
        reveal_strlit("&lt;");
        reveal_strlit("&gt;");
        reveal_strlit("&quot;");
        reveal_strlit("&#39;");
    }
    let v = chars_of(value);
    let v = replace_chars(&v, "&amp;", "&");
    let v = replace_chars(&v, "&lt;", "<");
    let v = replace_chars(&v, "&gt;", ">");
    let v = replace_chars(&v, "&quot;", "\"");
    let v = replace_chars(&v, "&#39;", "'");
    string_from_chars(&v)
}

/// Text without `&` holds no entity, and decoding leaves it as it is.
pub proof fn decoding_without_ampersand_is_identity(s: Seq<char>)
    requires
        !s.contains('&'),
    ensures
        decode_html_entities_spec(s) == s,
{
    reveal_strlit("&amp;");
    reveal_strlit("&lt;");
    reveal_strlit("&gt;");
    reveal_strlit("&quot;");
    reveal_strlit("&#39;");
    lemma_replace_absent(s, "&amp;"@, "&"@);
    lemma_replace_absent(s, "&lt;"@, "<"@);
    lemma_replace_absent(s, "&gt;"@, ">"@);
    lemma_replace_absent(s, "&quot;"@, "\""@);
    lemma_replace_absent(s, "&#39;"@, "'"@);
}

/// Whether `needle` occurs in `hay` at byte index `i`.
pub open spec fn bytes_at(hay: Seq<u8>, needle: Seq<u8>, i: int) -> bool {
    0 <= i && i + needle.len() <= hay.len() && hay.subrange(i, i + needle.len()) == needle
}

/// The first byte index at or after `from` where `needle` occurs in `hay`, as
/// `str::find` gives it for a nonempty pattern.
pub open spec fn first_match(hay: Seq<u8>, needle: Seq<u8>, from: int) -> Option<int>
    decreases hay.len() - from,
{
    if from < 0 || from >= hay.len() || from + needle.len() > hay.len() {
        None
    } else if bytes_at(hay, needle, from) {
        Some(from)
    } else {
        first_match(hay, needle, from + 1)
    }
}

fn find_bytes(hay: &[u8], from: usize, needle: &[u8]) -> (r: Option<usize>)
    ensures
        r matches Some(k) ==> first_match(hay@, needle@, from as int) == Some(k as int),
        r is None ==> first_match(hay@, needle@, from as int) is None,
        r matches Some(k) ==> from <= k < hay@.len() && k + needle@.len() <= hay@.len(),
{
    let mut i = from;
    while i < hay.len() && needle.len() <= hay.len() - i
        invariant
            from <= i,
            first_match(hay@, needle@, from as int) == first_match(hay@, needle@, i as int),
        decreases hay.len() - i,
    {
        let mut j: usize = 0;
        let mut same = true;
        while j < needle.len()
            invariant
                i < hay.len(),
                needle.len() <= hay.len() - i,
                j <= needle.len(),
                same == forall|k: int| 0 <= k < j ==> hay@[i + k] == needle@[k],
            decreases needle.len() - j,
        {
            if hay[i + j] != needle[j] {
                same = false;
            }
            j += 1;
        }
        if same {
            assert(hay@.subrange(i as int, i + needle.len()) =~= needle@);
            return Some(i);
        }
        proof {
            let k = choose|k: int| 0 <= k < needle.len() && hay@[i + k] != needle@[k];
            assert(hay@.subrange(i as int, i + needle.len())[k] != needle@[k]);
        }
        i += 1;
    }
    None
}

/// Where the text of the first `<title>` element lies in the UTF-8 bytes
/// `html` of a page, found the way `extract_html_title` looks for it: `<title`
/// in `lower` (the bytes of the lowercased page), then the first `>` after it
/// in `html`, then the first `</title>` in `lower` after that. Byte indices
/// found in one text are used to cut the other, so this is `None` where such
/// an index does not fall on a character boundary of the text it cuts (std
/// panics on that slice); `Some(None)` where a marker is missing.
pub open spec fn title_bounds(html: Seq<u8>, lower: Seq<u8>) -> Option<Option<(int, int)>> {
    match first_match(lower, encode_utf8("<title"@), 0) {
        None => Some(None),
        Some(start) => if !is_char_boundary(html, start) {
            None
        } else {
            match first_match(html, encode_utf8(">"@), start) {
                None => Some(None),
                Some(close) => {
                    let content_start = close + 1;
                    if !is_char_boundary(lower, content_start) {
                        None
                    } else {
                        match first_match(lower, encode_utf8("</title>"@), content_start) {
                            None => Some(None),
                            Some(content_end) => if is_char_boundary(html, content_start)
                                && is_char_boundary(html, content_end) {
                                Some(Some((content_start, content_end)))
                            } else {
                                None
                            },
                        }
                    }
                },
            }
        },
    }
}


/// The text of a `<title>` element: trimmed, then its entities decoded.
pub open spec fn title_text(raw: Seq<char>) -> Seq<char> {
    decode_html_entities_spec(trim(raw))
}

/// A byte index, found in one of the two texts, that is not a character
/// boundary of the text it would cut.
#[derive(Debug)]
pub enum HtmlTitleError {
    NotCharBoundary,
}

/// The title that the scan of `title_bounds` gives: `Err` where it would cut
/// a text off a character boundary, `Ok(None)` where there is no title.
pub open spec fn html_title_spec(html: Seq<u8>, lower: Seq<u8>) -> Result<Option<Seq<char>>, ()> {
    match title_bounds(html, lower) {
        None => Err(()),
        Some(None) => Ok(None),
        Some(Some((start, end))) => Ok(Some(title_text(decode_utf8(html.subrange(start, end))))),
    }
}

/// Whether `r` is the result that `html_title_spec` describes.
pub open spec fn is_title_result(
    r: Result<Option<String>, HtmlTitleError>,
    expected: Result<Option<Seq<char>>, ()>,
) -> bool {
    match expected {
        Err(()) => r is Err,
        Ok(None) => r matches Ok(None),
        Ok(Some(t)) => r matches Ok(Some(s)) && s@ == t,
    }
}

proof fn lemma_valid_between(bytes: Seq<u8>, start: int, end: int)
    requires
        valid_utf8(bytes),
        0 <= start <= end <= bytes.len(),
        is_char_boundary(bytes, start),
        is_char_boundary(bytes, end),
    ensures
        valid_utf8(bytes.subrange(start, end)),
{
    valid_utf8_split(bytes, end);
    let prefix = bytes.subrange(0, end);
    if start < end {
        is_char_boundary_iff_not_is_continuation_byte(bytes, start);
        is_char_boundary_iff_not_is_continuation_byte(prefix, start);
        assert(prefix[start] == bytes[start]);
        valid_utf8_split(prefix, start);
        assert(prefix.subrange(start, end) =~= bytes.subrange(start, end));
    } else {
        assert(bytes.subrange(start, end) =~= Seq::<u8>::empty());
    }
}

/// The title of the page `html`, given `lower_html`, the page lowercased:
/// see `title_bounds` for where it is looked for, and `title_text` for what
/// is done to it.
pub fn title_in_lowercased(html: &str, lower_html: &str) -> (r: Result<
    Option<String>,
    HtmlTitleError,
>)
    ensures
        is_title_result(r, html_title_spec(encode_utf8(html@), encode_utf8(lower_html@))),
{
    let hb = html.as_bytes();
    let lb = lower_html.as_bytes();
    proof {
        encode_utf8_valid_utf8(html@);
        encode_utf8_valid_utf8(lower_html@);
    }
    let start = match find_bytes(lb, 0, "<title".as_bytes()) {
        Some(k) => k,
        None => {
            return Ok(None);
        },
    };
    if !html.is_char_boundary(start) {
        return Err(HtmlTitleError::NotCharBoundary);
    }
    let close = match find_bytes(hb, start, ">".as_bytes()) {
        Some(k) => k,
        None => {
            return Ok(None);
        },
    };
    let html_len = hb.len();
    assert(close < html_len);
    let content_start = close + 1;
    if !lower_html.is_char_boundary(content_start) {
        return Err(HtmlTitleError::NotCharBoundary);
    }
    let content_end = match find_bytes(lb, content_start, "</title>".as_bytes()) {
        Some(k) => k,
        None => {
            return Ok(None);
        },
    };
    if !(html.is_char_boundary(content_start) && html.is_char_boundary(content_end)) {
        return Err(HtmlTitleError::NotCharBoundary);
    }
    let mut raw: Vec<u8> = Vec::new();
    let mut i = content_start;
    while i < content_end
        invariant
            content_start <= i <= content_end <= hb@.len(),
            raw@ == hb@.subrange(content_start as int, i as int),
        decreases content_end - i,
    {
        raw.push(hb[i]);
        i += 1;
    }
    proof {
        lemma_valid_between(hb@, content_start as int, content_end as int);
    }
    let text = match string_from_utf8(raw) {
        Some(t) => t,
        None => {
            return Err(HtmlTitleError::NotCharBoundary);
        },
    };
    let v = chars_of(text.as_str());
    let (a, b) = trim_bounds(&v);
    let trimmed = string_from_chars(&sub_chars(&v, a, b));
    Ok(Some(decode_html_entities(trimmed.as_str())))
}


/// The Unicode lowercase mapping of `s`, as `str::to_lowercase` computes it.
pub uninterp spec fn unicode_lowercase(s: Seq<char>) -> Seq<char>;

/// `str::to_lowercase`: the text mapped to lowercase by Unicode's
/// `Lowercase` property, mostly character by character but with context
/// rules (a final capital sigma lowercases differently from an inner one).
/// That mapping spans the Unicode tables, so the contract names the result
/// rather than stating it.
#[verifier::external_body]
fn to_lowercase(s: &str) -> (r: String)
    ensures
        r@ == unicode_lowercase(s@),
{
    s.to_lowercase()
}

/// The title of the page `html`: the text of its first `<title>` element,
/// found case-insensitively through the lowercased page (see `title_bounds`),
/// trimmed and with its entities decoded; `Ok(None)` where the page has none,
/// and `Err` where the byte indices of the lowercased page do not cut the page
/// on character boundaries.
pub fn extract_html_title(html: &str) -> (r: Result<Option<String>, HtmlTitleError>)
    ensures
        is_title_result(
            r,
            html_title_spec(encode_utf8(html@), encode_utf8(unicode_lowercase(html@))),
        ),
{
    let lower_html = to_lowercase(html);
    title_in_lowercased(html, lower_html.as_str())
}

/// `value` trimmed, where that leaves something.
pub open spec fn trimmed_non_empty_spec(value: Option<Seq<char>>) -> Option<Seq<char>> {
    match value {
        Some(v) => if trim(v).len() > 0 {
            Some(trim(v))
        } else {
            None
        },
        None => None,
    }
}

/// `value` trimmed, unless it is missing or blank: how the title and the icon
/// of `package.json` are read.
pub fn trimmed_non_empty(value: Option<&str>) -> (r: Option<String>)
    ensures
        r is Some <==> trimmed_non_empty_spec(opt_view(value)) is Some,
        r matches Some(t) ==> Some(t@) == trimmed_non_empty_spec(opt_view(value)),
{
    match value {
        Some(v) => {
            let chars = chars_of(v);
            let (a, b) = trim_bounds(&chars);
            if a < b {
                Some(string_from_chars(&sub_chars(&chars, a, b)))
            } else {
                None
            }
        },
        None => None,
    }
}

/// The initial window title: the trimmed title of `package.json` where it has
/// a non-blank one; otherwise the non-empty title of `index_html` (the page,
/// where it could be read); otherwise `taurin`. `Err` where scanning the page
/// for its title fails (see `extract_html_title`).
pub open spec fn initial_title_spec(
    package_title: Option<Seq<char>>,
    index_html: Option<Seq<char>>,
) -> Result<Seq<char>, ()> {
    match trimmed_non_empty_spec(package_title) {
        Some(t) => Ok(t),
        None => match index_html {
            None => Ok(FALLBACK_RPG_MAKER_TITLE@),
            Some(html) => match html_title_spec(encode_utf8(html), encode_utf8(unicode_lowercase(html))) {
                Err(()) => Err(()),
                Ok(Some(t)) => if t.len() > 0 {
                    Ok(t)
                } else {
                    Ok(FALLBACK_RPG_MAKER_TITLE@)
                },
                Ok(None) => Ok(FALLBACK_RPG_MAKER_TITLE@),
            },
        },
    }
}

/// A title taken from a page neither begins nor ends with white space: it is
/// trimmed, and the entities decode to characters that are not white space.
pub proof fn title_text_is_trimmed(raw: Seq<char>)
    ensures
        trim(title_text(raw)) == title_text(raw),
{
    reveal_strlit("&amp;");
    reveal_strlit("&lt;");
    reveal_strlit("&gt;");
    reveal_strlit("&quot;");
    reveal_strlit("&#39;");
    reveal_strlit("&");
    reveal_strlit("<");
    reveal_strlit(">");
    reveal_strlit("\"");
    reveal_strlit("'");
    lemma_trim_edges(raw);
    let s0 = trim(raw);
    let s1 = replace_all(s0, "&amp;"@, "&"@);
    let s2 = replace_all(s1, "&lt;"@, "<"@);
    let s3 = replace_all(s2, "&gt;"@, ">"@);
    let s4 = replace_all(s3, "&quot;"@, "\""@);
    lemma_replace_keeps_trimmed(s0, "&amp;"@, "&"@);
    lemma_replace_keeps_trimmed(s1, "&lt;"@, "<"@);
    lemma_replace_keeps_trimmed(s2, "&gt;"@, ">"@);
    lemma_replace_keeps_trimmed(s3, "&quot;"@, "\""@);
    lemma_replace_keeps_trimmed(s4, "&#39;"@, "'"@);
    lemma_trim_identity(title_text(raw));
}

/// The initial window title (see `initial_title_spec`). It is never empty,
/// and neither begins nor ends with white space.
pub fn rpg_maker_initial_title(package_title: Option<&str>, index_html: Option<&str>) -> (r: Result<
    String,
    HtmlTitleError,
>)
    ensures
        match initial_title_spec(opt_view(package_title), opt_view(index_html)) {
            Ok(t) => r matches Ok(s) && s@ == t,
            Err(()) => r is Err,
        },
        r matches Ok(s) ==> s@.len() > 0,
        r matches Ok(s) ==> trim(s@) == s@,
{
    proof {
        reveal_strlit("taurin");
        lemma_trim_identity(FALLBACK_RPG_MAKER_TITLE@);
        if let Some(html) = index_html {
            let hb = encode_utf8(html@);
            let lb = encode_utf8(unicode_lowercase(html@));
            if let Some(Some((start, end))) = title_bounds(hb, lb) {
                title_text_is_trimmed(decode_utf8(hb.subrange(start, end)));
            }
        }
        if let Some(v) = package_title {
            lemma_trim_edges(v@);
            lemma_trim_identity(trim(v@));
        }
    }
    if let Some(t) = trimmed_non_empty(package_title) {
        return Ok(t);
    }
    match index_html {
        None => Ok(FALLBACK_RPG_MAKER_TITLE.to_owned()),
        Some(html) => match extract_html_title(html) {
            Err(e) => Err(e),
            Ok(Some(t)) => if t.as_str().is_empty() {
                Ok(FALLBACK_RPG_MAKER_TITLE.to_owned())
            } else {
                Ok(t)
            },
            Ok(None) => Ok(FALLBACK_RPG_MAKER_TITLE.to_owned()),
        },
    }
}

} // verus!
