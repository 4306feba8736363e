//! Character-level string operations shared by the parsers of this crate,
//! each specified over the `Seq<char>` view of the strings it handles.
use vstd::prelude::*;
use vstd::utf8::*;

verus! {

/// `String`'s `FromIterator<&char>`: the string made of the given characters,
/// in order.
#[verifier::external_body]
pub(crate) fn string_from_chars(chars: &Vec<char>) -> (r: String)
    ensures
        r@ == chars@,
{
    chars.iter().collect()
}

/// `String::from_utf8`: the string that the bytes encode, when they are valid
/// UTF-8, and `None` otherwise.
#[verifier::external_body]
pub(crate) fn string_from_utf8(bytes: Vec<u8>) -> (r: Option<String>)
    ensures
        r is Some <==> valid_utf8(bytes@),
        r matches Some(s) ==> s@ == decode_utf8(bytes@),
{
    String::from_utf8(bytes).ok()
}

/// The characters of `s`, in order.
pub fn chars_of(s: &str) -> (r: Vec<char>)
    ensures
        r@ == s@,
{
    let mut v: Vec<char> = Vec::new();
    for c in it: s.chars()
        invariant
            v@ == it.seq().take(it.index() as int),
            it.seq() == s@,
    {
        v.push(c);
    }
    v
}

/// The characters `v[start..end]`.
pub fn sub_chars(v: &Vec<char>, start: usize, end: usize) -> (r: Vec<char>)
    requires
        start <= end <= v.len(),
    ensures
        r@ == v@.subrange(start as int, end as int),
{
    let mut out: Vec<char> = Vec::new();
    let mut i = start;
    while i < end
        invariant
            start <= i <= end <= v.len(),
            out@ == v@.subrange(start as int, i as int),
        decreases end - i,
    {
        out.push(v[i]);
        i += 1;
    }
    out
}

/// Unicode's `White_Space` property, which `char::is_whitespace` and
/// `str::trim` follow.
pub open spec fn is_unicode_whitespace(c: char) -> bool {
    ||| '\u{9}' <= c <= '\u{d}'
    ||| c == ' '
    ||| c == '\u{85}'
    ||| c == '\u{a0}'
    ||| c == '\u{1680}'
    ||| '\u{2000}' <= c <= '\u{200a}'
    ||| c == '\u{2028}'
    ||| c == '\u{2029}'
    ||| c == '\u{202f}'
    ||| c == '\u{205f}'
    ||| c == '\u{3000}'
}

/// Whether `c` is Unicode white space.
pub fn is_whitespace(c: char) -> (r: bool)
    ensures
        r == is_unicode_whitespace(c),
{
    ('\u{9}' <= c && c <= '\u{d}') || c == ' ' || c == '\u{85}' || c == '\u{a0}' || c
        == '\u{1680}' || ('\u{2000}' <= c && c <= '\u{200a}') || c == '\u{2028}' || c
        == '\u{2029}' || c == '\u{202f}' || c == '\u{205f}' || c == '\u{3000}'
}

/// `s` without its leading white space.
pub open spec fn trim_start(s: Seq<char>) -> Seq<char>
    decreases s.len(),
{
    if s.len() > 0 && is_unicode_whitespace(s[0]) {
        trim_start(s.drop_first())
    } else {
        s
    }
}

/// `s` without its trailing white space.
pub open spec fn trim_end(s: Seq<char>) -> Seq<char>
    decreases s.len(),
{
    if s.len() > 0 && is_unicode_whitespace(s.last()) {
        trim_end(s.drop_last())
    } else {
        s
    }
}

/// `s` without leading and trailing white space, as `str::trim` gives it.
pub open spec fn trim(s: Seq<char>) -> Seq<char> {
    trim_end(trim_start(s))
}

/// Trimming the start of `s` drops exactly its first `i` characters when
/// they are white space and the next one is not.
pub proof fn lemma_trim_start_at(s: Seq<char>, i: int)
    requires
        0 <= i <= s.len(),
        forall|j: int| 0 <= j < i ==> is_unicode_whitespace(#[trigger] s[j]),
        i == s.len() || !is_unicode_whitespace(s[i]),
    ensures
        trim_start(s) == s.skip(i),
    decreases i,
{
    if i == 0 {
        assert(s.skip(0) =~= s);
    } else {
        let t = s.drop_first();
        assert forall|j: int| 0 <= j < i - 1 implies is_unicode_whitespace(#[trigger] t[j]) by {
            assert(t[j] == s[j + 1]);
        }
        lemma_trim_start_at(t, i - 1);
        assert(t.skip(i - 1) =~= s.skip(i));
    }
}

proof fn lemma_trim_end_at(s: Seq<char>, m: int)
    requires
        0 <= m <= s.len(),
        forall|j: int| m <= j < s.len() ==> is_unicode_whitespace(#[trigger] s[j]),
        m == 0 || !is_unicode_whitespace(s[m - 1]),
    ensures
        trim_end(s) == s.take(m),
    decreases s.len() - m,
{
    if m == s.len() {
        assert(s.take(m) =~= s);
    } else {
        let t = s.drop_last();
        assert forall|j: int| m <= j < t.len() implies is_unicode_whitespace(#[trigger] t[j]) by {
            assert(t[j] == s[j]);
        }
        lemma_trim_end_at(t, m);
        assert(t.take(m) =~= s.take(m));
    }
}

/// The bounds `(start, end)` such that `v[start..end]` is `v` trimmed.
pub fn trim_bounds(v: &Vec<char>) -> (r: (usize, usize))
    ensures
        r.0 <= r.1 <= v.len(),
        v@.subrange(r.0 as int, r.1 as int) == trim(v@),
{
    let n = v.len();
    let mut i: usize = 0;
    while i < n && is_whitespace(v[i])
        invariant
            i <= n == v.len(),
            forall|j: int| 0 <= j < i ==> is_unicode_whitespace(#[trigger] v@[j]),
        decreases n - i,
    {
        i += 1;
    }
    let mut j: usize = n;
    while j > i && is_whitespace(v[j - 1])
        invariant
            i <= j <= n == v.len(),
            forall|k: int| j <= k < n ==> is_unicode_whitespace(#[trigger] v@[k]),
        decreases j - i,
    {
        j -= 1;
    }
    proof {
        lemma_trim_start_at(v@, i as int);
        let t = v@.skip(i as int);
        assert forall|k: int| j - i <= k < t.len() implies is_unicode_whitespace(#[trigger] t[k]) by {
            assert(t[k] == v@[k + i]);
        }
        if j > i {
            assert(t[j - i - 1] == v@[j - 1]);
        }
        lemma_trim_end_at(t, j - i);
        assert(t.take(j - i) =~= v@.subrange(i as int, j as int));
    }
    (i, j)
}

/// `s` without leading and trailing white space.
pub fn trim_str(s: &str) -> (r: String)
    ensures
        r@ == trim(s@),
{
    let v = chars_of(s);
    let (i, j) = trim_bounds(&v);
    string_from_chars(&sub_chars(&v, i, j))
}


/// Whether `s` starts with `p`.
pub open spec fn has_prefix(s: Seq<char>, p: Seq<char>) -> bool {
    p.len() <= s.len() && s.take(p.len() as int) == p
}

/// `s` without the prefix `p`, as `str::strip_prefix` gives it.
pub open spec fn strip_prefix(s: Seq<char>, p: Seq<char>) -> Option<Seq<char>> {
    if has_prefix(s, p) {
        Some(s.skip(p.len() as int))
    } else {
        None
    }
}

/// `v` without the prefix `p`, or `None` where `v` does not start with `p`.
pub fn strip_prefix_chars(v: &Vec<char>, p: &Vec<char>) -> (r: Option<Vec<char>>)
    ensures
        r is Some <==> strip_prefix(v@, p@) is Some,
        r matches Some(rest) ==> Some(rest@) == strip_prefix(v@, p@),
{
    if p.len() > v.len() {
        return None;
    }
    let mut i: usize = 0;
    while i < p.len()
        invariant
            i <= p.len() <= v.len(),
            forall|j: int| 0 <= j < i ==> v@[j] == p@[j],
        decreases p.len() - i,
    {
        if v[i] != p[i] {
            assert(v@.take(p.len() as int)[i as int] != p@[i as int]);
            return None;
        }
        i += 1;
    }
    assert(v@.take(p.len() as int) =~= p@);
    Some(sub_chars(v, p.len(), v.len()))
}

/// The index of the first `c` in `s`, as `str::find` gives it for a character.
pub open spec fn first_index_of(s: Seq<char>, c: char) -> Option<int>
    decreases s.len(),
{
    if s.len() == 0 {
        None
    } else if s[0] == c {
        Some(0)
    } else {
        match first_index_of(s.drop_first(), c) {
            Some(i) => Some(i + 1),
            None => None,
        }
    }
}

/// `first_index_of` names the first position of `c`, or gives `None` where `c`
/// is absent.
pub proof fn lemma_first_index_of(s: Seq<char>, c: char)
    ensures
        first_index_of(s, c) matches Some(k) ==> {
            &&& 0 <= k < s.len()
            &&& s[k] == c
            &&& forall|j: int| 0 <= j < k ==> s[j] != c
        },
        first_index_of(s, c) is None ==> forall|j: int| 0 <= j < s.len() ==> s[j] != c,
    decreases s.len(),
{
    if s.len() > 0 && s[0] != c {
        let t = s.drop_first();
        lemma_first_index_of(t, c);
        assert forall|j: int| 0 < j < s.len() implies s[j] == t[j - 1] by {}
    }
}

/// `first_index_of` gives `k` where `s[k]` is the first `c`.
pub proof fn lemma_first_index_of_at(s: Seq<char>, c: char, k: int)
    requires
        0 <= k < s.len(),
        s[k] == c,
        forall|j: int| 0 <= j < k ==> s[j] != c,
    ensures
        first_index_of(s, c) == Some(k),
{
    lemma_first_index_of(s, c);
    if let Some(m) = first_index_of(s, c) {
        assert(!(m < k));
        assert(!(k < m));
    }
}

/// The first index `k >= from` with `v[k] == c`.
pub fn find_char_from(v: &Vec<char>, from: usize, c: char) -> (r: Option<usize>)
    requires
        from <= v.len(),
    ensures
        r matches Some(k) ==> first_index_of(v@.skip(from as int), c) == Some(k - from),
        r is None ==> first_index_of(v@.skip(from as int), c) is None,
        r matches Some(k) ==> from <= k < v.len() && v@[k as int] == c,
{
    let mut i = from;
    while i < v.len()
        invariant
            from <= i <= v.len(),
            forall|j: int| from <= j < i ==> v@[j] != c,
        decreases v.len() - i,
    {
        if v[i] == c {
            proof {
                let t = v@.skip(from as int);
                assert forall|j: int| 0 <= j < i - from implies t[j] != c by {
                    assert(t[j] == v@[j + from]);
                }
                lemma_first_index_of_at(t, c, i - from);
            }
            return Some(i);
        }
        i += 1;
    }
    proof {
        let t = v@.skip(from as int);
        lemma_first_index_of(t, c);
        if let Some(k) = first_index_of(t, c) {
            assert(t[k] == v@[k + from]);
        }
    }
    None
}

/// A line without the carriage return of a `\r\n` ending.
pub open spec fn strip_cr(line: Seq<char>) -> Seq<char> {
    if line.len() > 0 && line.last() == '\r' {
        line.drop_last()
    } else {
        line
    }
}

/// The lines of `s`, as `str::lines` gives them: split at `\n` or `\r\n`;
/// a final line ending adds no empty line, and a last line without `\n`
/// keeps a trailing `\r`.
pub open spec fn lines(s: Seq<char>) -> Seq<Seq<char>>
    decreases s.len(),
{
    if s.len() == 0 {
        seq![]
    } else {
        match first_index_of(s, '\n') {
            None => seq![s],
            Some(k) => {
                proof {
                    lemma_first_index_of(s, '\n');
                }
                seq![strip_cr(s.take(k))] + lines(s.skip(k + 1))
            },
        }
    }
}

/// The views of a vector of character vectors.
pub open spec fn views(v: Seq<Vec<char>>) -> Seq<Seq<char>> {
    v.map_values(|l: Vec<char>| l@)
}

/// The lines of `v`.
pub fn split_lines(v: &Vec<char>) -> (r: Vec<Vec<char>>)
    ensures
        views(r@) == lines(v@),
{
    let n = v.len();
    let mut out: Vec<Vec<char>> = Vec::new();
    let mut p: usize = 0;
    assert(v@.skip(0) =~= v@);
    while p < n
        invariant
            p <= n == v.len(),
            views(out@) + lines(v@.skip(p as int)) == lines(v@),
        decreases n - p,
    {
        let ghost t = v@.skip(p as int);
        let ghost before = out@;
        match find_char_from(v, p, '\n') {
            Some(k) => {
                let mut line = sub_chars(v, p, k);
                let len = line.len();
                if len > 0 && line[len - 1] == '\r' {
                    line.pop();
                }
                proof {
                    assert(t.take(k - p) =~= v@.subrange(p as int, k as int));
                    assert(t.skip(k - p + 1) =~= v@.skip(k + 1));
                    assert(line@ == strip_cr(t.take(k - p)));
                }
                out.push(line);
                p = k + 1;
                proof {
                    assert(views(out@) =~= views(before) + seq![line@]);
                }
            },
            None => {
                let line = sub_chars(v, p, n);
                proof {
                    assert(line@ =~= t);
                    assert(v@.skip(n as int) =~= Seq::<char>::empty());
                    assert(lines(v@.skip(n as int)) =~= Seq::<Seq<char>>::empty());
                }
                out.push(line);
                p = n;
                proof {
                    assert(views(out@) =~= views(before) + seq![line@]);
                }
            },
        }
    }
    proof {
        assert(v@.skip(n as int) =~= Seq::<char>::empty());
        assert(views(out@) + lines(v@.skip(n as int)) =~= views(out@));
    }
    out
}


/// Whether `v` holds exactly the characters of `s`.
pub fn chars_eq_str(v: &Vec<char>, s: &str) -> (r: bool)
    ensures
        r == (v@ == s@),
{
    let w = chars_of(s);
    if v.len() != w.len() {
        return false;
    }
    let mut i: usize = 0;
    while i < v.len()
        invariant
            i <= v.len() == w.len(),
            w@ == s@,
            forall|j: int| 0 <= j < i ==> v@[j] == w@[j],
        decreases v.len() - i,
    {
        if v[i] != w[i] {
            assert(v@[i as int] != w@[i as int]);
            return false;
        }
        i += 1;
    }
    assert(v@ =~= w@);
    true
}

/// Whether the strings `a` and `b` hold the same characters.
pub fn str_eq(a: &str, b: &str) -> (r: bool)
    ensures
        r == (a@ == b@),
{
    chars_eq_str(&chars_of(a), b)
}

/// The index of the last `c` in `s`.
pub open spec fn last_index_of(s: Seq<char>, c: char) -> Option<int>
    decreases s.len(),
{
    if s.len() == 0 {
        None
    } else if s.last() == c {
        Some(s.len() - 1)
    } else {
        last_index_of(s.drop_last(), c)
    }
}

/// The last index `k` with `v[k] == c`.
pub fn find_last_char(v: &Vec<char>, c: char) -> (r: Option<usize>)
    ensures
        r matches Some(k) ==> last_index_of(v@, c) == Some(k as int) && k < v.len(),
        r is None ==> last_index_of(v@, c) is None,
{
    let mut i = v.len();
    assert(v@.take(i as int) =~= v@);
    while i > 0
        invariant
            i <= v.len(),
            last_index_of(v@, c) == last_index_of(v@.take(i as int), c),
        decreases i,
    {
        let ghost t = v@.take(i as int);
        assert(t.drop_last() =~= v@.take(i - 1));
        if v[i - 1] == c {
            return Some(i - 1);
        }
        i -= 1;
    }
    assert(v@.take(0) =~= Seq::<char>::empty());
    None
}


/// Appends the characters of `s` to `out`.
pub fn push_str(out: &mut Vec<char>, s: &str)
    ensures
        final(out)@ == old(out)@ + s@,
{
    let mut w = chars_of(s);
    out.append(&mut w);
}

/// The UTF-8 bytes of `s`.
pub fn utf8_bytes(s: &str) -> (r: Vec<u8>)
    ensures
        r@ == encode_utf8(s@),
{
    vstd::slice::slice_to_vec(s.as_bytes())
}


/// Whether `pat` occurs in `s` at index `i`.
pub open spec fn occurs_at(s: Seq<char>, pat: Seq<char>, i: int) -> bool {
    0 <= i && i + pat.len() <= s.len() && s.subrange(i, i + pat.len()) == pat
}

/// `s` with every occurrence of the nonempty `pat` replaced by `rep`, as
/// `str::replace` does it: matches are taken left to right and do not overlap.
pub open spec fn replace_all(s: Seq<char>, pat: Seq<char>, rep: Seq<char>) -> Seq<char>
    decreases s.len(),
{
    if pat.len() == 0 || s.len() < pat.len() {
        s
    } else if s.take(pat.len() as int) == pat {
        rep + replace_all(s.skip(pat.len() as int), pat, rep)
    } else {
        seq![s[0]] + replace_all(s.drop_first(), pat, rep)
    }
}

fn occurs_at_exec(s: &Vec<char>, pat: &Vec<char>, i: usize) -> (r: bool)
    requires
        i <= s.len(),
    ensures
        r == occurs_at(s@, pat@, i as int),
{
    if pat.len() > s.len() - i {
        return false;
    }
    let mut j: usize = 0;
    while j < pat.len()
        invariant
            j <= pat.len() <= s.len() - i,
            forall|k: int| 0 <= k < j ==> s@[i + k] == pat@[k],
        decreases pat.len() - j,
    {
        if s[i + j] != pat[j] {
            assert(s@.subrange(i as int, i + pat.len())[j as int] != pat@[j as int]);
            return false;
        }
        j += 1;
    }
    assert(s@.subrange(i as int, i + pat.len()) =~= pat@);
    true
}

/// `s` with every occurrence of `pat` replaced by `rep`.
pub fn replace_chars(s: &Vec<char>, pat: &str, rep: &str) -> (r: Vec<char>)
    requires
        pat@.len() > 0,
    ensures
        r@ == replace_all(s@, pat@, rep@),
{
    let p = chars_of(pat);
    let q = chars_of(rep);
    let mut out: Vec<char> = Vec::new();
    let mut i: usize = 0;
    assert(s@.skip(0) =~= s@);
    while i < s.len()
        invariant
            i <= s.len(),
            p@ == pat@,
            q@ == rep@,
            p@.len() > 0,
            replace_all(s@, p@, q@) == out@ + replace_all(s@.skip(i as int), p@, q@),
        decreases s.len() - i,
    {
        let ghost t = s@.skip(i as int);
        let ghost before = out@;
        if occurs_at_exec(s, &p, i) {
            assert(t.take(p@.len() as int) =~= s@.subrange(i as int, i + p@.len()));
            assert(t.skip(p@.len() as int) =~= s@.skip(i + p@.len()));
            let mut w = chars_of(rep);
            out.append(&mut w);
            assert(before + (q@ + replace_all(t.skip(p@.len() as int), p@, q@)) =~= out@
                + replace_all(t.skip(p@.len() as int), p@, q@));
            i += p.len();
        } else {
            proof {
                if t.len() >= p@.len() {
                    assert(t.take(p@.len() as int) =~= s@.subrange(i as int, i + p@.len()));
                }
            }
            assert(t.drop_first() =~= s@.skip(i + 1));
            out.push(s[i]);
            proof {
                if t.len() >= p@.len() {
                    assert(before + (seq![t[0]] + replace_all(t.drop_first(), p@, q@)) =~= out@
                        + replace_all(t.drop_first(), p@, q@));
                } else {
                    assert(replace_all(t, p@, q@) == t);
                    assert(t.drop_first().len() < p@.len());
                    assert(replace_all(t.drop_first(), p@, q@) == t.drop_first());
                    assert(before + t =~= out@ + t.drop_first());
                }
            }
            i += 1;
        }
    }
    assert(s@.skip(i as int) =~= Seq::<char>::empty());
    assert(out@ + Seq::<char>::empty() =~= out@);
    out
}


/// The view of an optional string.
pub open spec fn opt_view(o: Option<&str>) -> Option<Seq<char>> {
    match o {
        Some(v) => Some(v@),
        None => None,
    }
}


/// An ASCII character occurs in the UTF-8 encoding of `chars` only where it
/// occurs in `chars`: the bytes of other characters are not ASCII.
pub proof fn lemma_ascii_byte_absent(chars: Seq<char>, c: char)
    requires
        (c as u32) < 0x80,
        !chars.contains(c),
    ensures
        !encode_utf8(chars).contains(c as u8),
    decreases chars.len(),
{
    if chars.len() > 0 {
        let rest = chars.drop_first();
        assert(!rest.contains(c)) by {
            if rest.contains(c) {
                let i = choose|i: int| 0 <= i < rest.len() && rest[i] == c;
                assert(chars[i + 1] == c);
            }
        }
        lemma_ascii_byte_absent(rest, c);
        let s = chars[0] as u32;
        let b = c as u32;
        assert(chars[0] != c);
        assert(s != b) by {
            vstd::utf8::char_u32_cast(chars[0], s);
            vstd::utf8::char_u32_cast(c, b);
        }
        let head = encode_scalar(s);
        assert(!head.contains(c as u8)) by {
            assert(b < 0x80 && s != b && has_width_1_encoding(s) ==> (s & 0x7F) as u8 != b as u8)
                by (bit_vector);
            assert(b < 0x80 ==> 0xC0 | ((s >> 6) & 0x1F) as u8 != b as u8) by (bit_vector);
            assert(b < 0x80 ==> 0xE0 | ((s >> 12) & 0x0F) as u8 != b as u8) by (bit_vector);
            assert(b < 0x80 ==> 0xF0 | ((s >> 18) & 0x7) as u8 != b as u8) by (bit_vector);
            assert(b < 0x80 ==> 0x80 | (s & 0x3F) as u8 != b as u8) by (bit_vector);
            assert(b < 0x80 ==> 0x80 | ((s >> 6) & 0x3F) as u8 != b as u8) by (bit_vector);
            assert(b < 0x80 ==> 0x80 | ((s >> 12) & 0x3F) as u8 != b as u8) by (bit_vector);
            assert((c as u8) == b as u8);
        }
        let whole = encode_utf8(chars);
        assert(whole == head + encode_utf8(rest));
        if whole.contains(c as u8) {
            let i = choose|i: int| 0 <= i < whole.len() && whole[i] == c as u8;
            if i < head.len() {
                assert(head[i] == whole[i]);
            } else {
                assert(encode_utf8(rest)[i - head.len()] == whole[i]);
            }
        }
    }
}

/// Replacing a pattern whose first character does not occur in `s` leaves
/// `s` as it is.
pub proof fn lemma_replace_absent(s: Seq<char>, pat: Seq<char>, rep: Seq<char>)
    requires
        pat.len() > 0,
        !s.contains(pat[0]),
    ensures
        replace_all(s, pat, rep) == s,
    decreases s.len(),
{
    if s.len() >= pat.len() {
        assert(s.take(pat.len() as int)[0] == s[0]);
        assert(s[0] != pat[0]);
        let t = s.drop_first();
        assert(!t.contains(pat[0])) by {
            if t.contains(pat[0]) {
                let i = choose|i: int| 0 <= i < t.len() && t[i] == pat[0];
                assert(s[i + 1] == pat[0]);
            }
        }
        lemma_replace_absent(t, pat, rep);
        assert(seq![s[0]] + t =~= s);
    }
}


/// Whether `s` neither begins nor ends with white space.
pub open spec fn has_trimmed_edges(s: Seq<char>) -> bool {
    s.len() > 0 ==> !is_unicode_whitespace(s[0]) && !is_unicode_whitespace(s.last())
}

proof fn lemma_trim_start_edge(s: Seq<char>)
    ensures
        trim_start(s).len() > 0 ==> !is_unicode_whitespace(trim_start(s)[0]),
        trim_start(s).len() <= s.len(),
        trim_start(s) == s.skip(s.len() - trim_start(s).len()),
    decreases s.len(),
{
    if s.len() > 0 && is_unicode_whitespace(s[0]) {
        lemma_trim_start_edge(s.drop_first());
        assert(s.drop_first().skip(s.drop_first().len() - trim_start(s).len()) =~= s.skip(
            s.len() - trim_start(s).len(),
        ));
    } else {
        assert(s.skip(0) =~= s);
    }
}

proof fn lemma_trim_end_edge(s: Seq<char>)
    ensures
        trim_end(s).len() > 0 ==> !is_unicode_whitespace(trim_end(s).last()),
        trim_end(s).len() <= s.len(),
        trim_end(s) == s.take(trim_end(s).len() as int),
    decreases s.len(),
{
    if s.len() > 0 && is_unicode_whitespace(s.last()) {
        lemma_trim_end_edge(s.drop_last());
        assert(s.drop_last().take(trim_end(s).len() as int) =~= s.take(trim_end(s).len() as int));
    } else {
        assert(s.take(s.len() as int) =~= s);
    }
}

/// Trimmed text neither begins nor ends with white space.
pub proof fn lemma_trim_edges(s: Seq<char>)
    ensures
        has_trimmed_edges(trim(s)),
{
    lemma_trim_start_edge(s);
    let t = trim_start(s);
    lemma_trim_end_edge(t);
    if trim(s).len() > 0 {
        assert(trim(s)[0] == t[0]);
    }
}

/// Text that neither begins nor ends with white space is its own trim.
pub proof fn lemma_trim_identity(s: Seq<char>)
    requires
        has_trimmed_edges(s),
    ensures
        trim(s) == s,
{
    lemma_trim_start_at(s, 0);
    assert(s.skip(0) =~= s);
    assert forall|j: int| s.len() <= j < s.len() implies is_unicode_whitespace(#[trigger] s[j]) by {}
    lemma_trim_end_at(s, s.len() as int);
    assert(s.take(s.len() as int) =~= s);
}

/// Replacing a pattern keeps the text's edges or puts those of the
/// replacement there: the first character of the result is the first of `s`
/// or of `rep`, and the last is the last of `s` or of `rep`.
pub proof fn lemma_replace_edges(s: Seq<char>, pat: Seq<char>, rep: Seq<char>)
    requires
        pat.len() > 0,
        rep.len() > 0,
        s.len() > 0,
    ensures
        replace_all(s, pat, rep).len() > 0,
        replace_all(s, pat, rep)[0] == s[0] || replace_all(s, pat, rep)[0] == rep[0],
        replace_all(s, pat, rep).last() == s.last() || replace_all(s, pat, rep).last()
            == rep.last(),
    decreases s.len(),
{
    if s.len() >= pat.len() {
        if s.take(pat.len() as int) == pat {
            let rest = s.skip(pat.len() as int);
            if rest.len() > 0 {
                lemma_replace_edges(rest, pat, rep);
                assert(rest.last() == s.last());
            } else {
                assert(replace_all(rest, pat, rep) =~= Seq::<char>::empty());
            }
        } else {
            let rest = s.drop_first();
            if rest.len() > 0 {
                lemma_replace_edges(rest, pat, rep);
                assert(rest.last() == s.last());
            } else {
                assert(replace_all(rest, pat, rep) =~= Seq::<char>::empty());
            }
        }
    }
}

/// Replacing a pattern by a text that neither begins nor ends with white
/// space keeps a text that neither begins nor ends with it so.
pub proof fn lemma_replace_keeps_trimmed(s: Seq<char>, pat: Seq<char>, rep: Seq<char>)
    requires
        pat.len() > 0,
        rep.len() > 0,
        has_trimmed_edges(s),
        has_trimmed_edges(rep),
    ensures
        has_trimmed_edges(replace_all(s, pat, rep)),
{
    if s.len() > 0 {
        lemma_replace_edges(s, pat, rep);
    } else {
        assert(replace_all(s, pat, rep) == s);
    }
}


/// The last `c` of `a + [c] + b` is the one after `a` when `b` holds none.
pub proof fn lemma_last_index_of_split(a: Seq<char>, c: char, b: Seq<char>)
    requires
        !b.contains(c),
    ensures
        last_index_of(a + seq![c] + b, c) == Some(a.len() as int),
    decreases b.len(),
{
    let s = a + seq![c] + b;
    if b.len() == 0 {
        assert(s.last() == c);
    } else {
        assert(s.last() == b.last());
        assert(b.last() != c) by {
            assert(b[b.len() - 1] == b.last());
        }
        let b2 = b.drop_last();
        assert(!b2.contains(c)) by {
            if b2.contains(c) {
                let i = choose|i: int| 0 <= i < b2.len() && b2[i] == c;
                assert(b[i] == c);
            }
        }
        assert(s.drop_last() =~= a + seq![c] + b2);
        lemma_last_index_of_split(a, c, b2);
    }
}

} // verus!
