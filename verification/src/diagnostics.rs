//! What the startup log reports of the machine, read from the text that the
//! system gives: `/etc/os-release`, `/proc/cpuinfo`, `/proc/meminfo`, and
//! the output of helper commands.
use vstd::prelude::*;
use vstd::utf8::*;
use crate::text::{
    chars_of, find_char_from, first_index_of, has_prefix, is_unicode_whitespace, is_whitespace,
    lemma_first_index_of_at, lines, push_str, strip_cr, split_lines, string_from_chars, strip_prefix, strip_prefix_chars, sub_chars, trim,
    trim_bounds, trim_start, views,
};

verus! {

/// The rest of the first of `ls` that starts with `p`, as
/// `lines().find_map(|line| line.strip_prefix(p))` gives it.
pub open spec fn first_after_prefix(ls: Seq<Seq<char>>, p: Seq<char>) -> Option<Seq<char>>
    decreases ls.len(),
{
    if ls.len() == 0 {
        None
    } else {
        match strip_prefix(ls[0], p) {
            Some(rest) => Some(rest),
            None => first_after_prefix(ls.drop_first(), p),
        }
    }
}

fn find_after_prefix(ls: &Vec<Vec<char>>, p: &str) -> (r: Option<Vec<char>>)
    ensures
        r is Some <==> first_after_prefix(views(ls@), p@) is Some,
        r matches Some(rest) ==> Some(rest@) == first_after_prefix(views(ls@), p@),
{
    let prefix = chars_of(p);
    let mut i: usize = 0;
    assert(views(ls@).skip(0) =~= views(ls@));
    while i < ls.len()
        invariant
            i <= ls.len(),
            prefix@ == p@,
            first_after_prefix(views(ls@), p@) == first_after_prefix(views(ls@).skip(i as int), p@),
        decreases ls.len() - i,
    {
        let ghost t = views(ls@).skip(i as int);
        assert(t[0] == ls@[i as int]@);
        assert(t.drop_first() =~= views(ls@).skip(i + 1));
        match strip_prefix_chars(&ls[i], &prefix) {
            Some(rest) => {
                return Some(rest);
            },
            None => {},
        }
        i += 1;
    }
    assert(views(ls@).skip(i as int) =~= Seq::<Seq<char>>::empty());
    None
}

/// `s` without leading and trailing `c`, as `str::trim_matches(c)` gives it.
pub open spec fn trim_char(s: Seq<char>, c: char) -> Seq<char> {
    trim_char_end(trim_char_start(s, c), c)
}

/// `s` without leading `c`.
pub open spec fn trim_char_start(s: Seq<char>, c: char) -> Seq<char>
    decreases s.len(),
{
    if s.len() > 0 && s[0] == c {
        trim_char_start(s.drop_first(), c)
    } else {
        s
    }
}

/// `s` without trailing `c`.
pub open spec fn trim_char_end(s: Seq<char>, c: char) -> Seq<char>
    decreases s.len(),
{
    if s.len() > 0 && s.last() == c {
        trim_char_end(s.drop_last(), c)
    } else {
        s
    }
}

proof fn lemma_trim_char_start_at(s: Seq<char>, c: char, i: int)
    requires
        0 <= i <= s.len(),
        forall|j: int| 0 <= j < i ==> #[trigger] s[j] == c,
        i == s.len() || s[i] != c,
    ensures
        trim_char_start(s, c) == s.skip(i),
    decreases i,
{
    if i == 0 {
        assert(s.skip(0) =~= s);
    } else {
        let t = s.drop_first();
        assert forall|j: int| 0 <= j < i - 1 implies #[trigger] t[j] == c by {
            assert(t[j] == s[j + 1]);
        }
        lemma_trim_char_start_at(t, c, i - 1);
        assert(t.skip(i - 1) =~= s.skip(i));
    }
}

proof fn lemma_trim_char_end_at(s: Seq<char>, c: char, m: int)
    requires
        0 <= m <= s.len(),
        forall|j: int| m <= j < s.len() ==> #[trigger] s[j] == c,
        m == 0 || s[m - 1] != c,
    ensures
        trim_char_end(s, c) == s.take(m),
    decreases s.len() - m,
{
    if m == s.len() {
        assert(s.take(m) =~= s);
    } else {
        let t = s.drop_last();
        assert forall|j: int| m <= j < t.len() implies #[trigger] t[j] == c by {
            assert(t[j] == s[j]);
        }
        lemma_trim_char_end_at(t, c, m);
        assert(t.take(m) =~= s.take(m));
    }
}

fn trim_char_chars(v: &Vec<char>, c: char) -> (r: Vec<char>)
    ensures
        r@ == trim_char(v@, c),
{
    let n = v.len();
    let mut i: usize = 0;
    while i < n && v[i] == c
        invariant
            i <= n == v.len(),
            forall|j: int| 0 <= j < i ==> #[trigger] v@[j] == c,
        decreases n - i,
    {
        i += 1;
    }
    let mut j: usize = n;
    while j > i && v[j - 1] == c
        invariant
            i <= j <= n == v.len(),
            forall|k: int| j <= k < n ==> #[trigger] v@[k] == c,
        decreases j - i,
    {
        j -= 1;
    }
    proof {
        lemma_trim_char_start_at(v@, c, i as int);
        let t = v@.skip(i as int);
        assert forall|k: int| j - i <= k < t.len() implies #[trigger] t[k] == c by {
            assert(t[k] == v@[k + i]);
        }
        if j > i {
            assert(t[j - i - 1] == v@[j - 1]);
        }
        lemma_trim_char_end_at(t, c, j - i);
        assert(t.take(j - i) =~= v@.subrange(i as int, j as int));
    }
    sub_chars(v, i, j)
}

/// The `PRETTY_NAME` of an `os-release` file, without its quotes.
pub open spec fn os_release_pretty_name_spec(contents: Seq<char>) -> Option<Seq<char>> {
    match first_after_prefix(lines(contents), "PRETTY_NAME="@) {
        Some(value) => Some(trim_char(value, '"')),
        None => None,
    }
}

/// The `PRETTY_NAME` of the `os-release` text `contents`: the rest of the
/// first line that starts with `PRETTY_NAME=`, without surrounding quotes.
pub fn os_release_pretty_name(contents: &str) -> (r: Option<String>)
    ensures
        r is Some <==> os_release_pretty_name_spec(contents@) is Some,
        r matches Some(name) ==> Some(name@) == os_release_pretty_name_spec(contents@),
{
    let ls = split_lines(&chars_of(contents));
    match find_after_prefix(&ls, "PRETTY_NAME=") {
        Some(value) => Some(string_from_chars(&trim_char_chars(&value, '"'))),
        None => None,
    }
}

/// The processor's name in a `cpuinfo` text.
pub open spec fn cpuinfo_model_name_spec(contents: Seq<char>) -> Option<Seq<char>> {
    match first_after_prefix(lines(contents), "model name"@) {
        Some(rest) => match first_index_of(rest, ':') {
            Some(k) => Some(trim(rest.skip(k + 1))),
            None => None,
        },
        None => None,
    }
}

/// The processor's name in the `cpuinfo` text `contents`: in the first line
/// that starts with `model name`, the trimmed text after its first `:`;
/// `None` where that line has no `:`.
pub fn cpuinfo_model_name(contents: &str) -> (r: Option<String>)
    ensures
        r is Some <==> cpuinfo_model_name_spec(contents@) is Some,
        r matches Some(name) ==> Some(name@) == cpuinfo_model_name_spec(contents@),
{
    let ls = split_lines(&chars_of(contents));
    let rest = match find_after_prefix(&ls, "model name") {
        Some(rest) => rest,
        None => {
            return None;
        },
    };
    assert(rest@.skip(0) =~= rest@);
    match find_char_from(&rest, 0, ':') {
        Some(k) => {
            let value = sub_chars(&rest, k + 1, rest.len());
            assert(value@ =~= rest@.skip(k + 1));
            let (a, b) = trim_bounds(&value);
            Some(string_from_chars(&sub_chars(&value, a, b)))
        },
        None => None,
    }
}

/// The characters of `s` before its first white space.
pub open spec fn leading_word(s: Seq<char>) -> Seq<char>
    decreases s.len(),
{
    if s.len() == 0 || is_unicode_whitespace(s[0]) {
        Seq::empty()
    } else {
        seq![s[0]] + leading_word(s.drop_first())
    }
}

/// The first word of `s`, as `split_whitespace().next()` gives it.
pub open spec fn first_word(s: Seq<char>) -> Option<Seq<char>> {
    let t = trim_start(s);
    if t.len() == 0 {
        None
    } else {
        Some(leading_word(t))
    }
}

proof fn lemma_leading_word_at(s: Seq<char>, k: int)
    requires
        0 <= k <= s.len(),
        forall|j: int| 0 <= j < k ==> !is_unicode_whitespace(#[trigger] s[j]),
        k == s.len() || is_unicode_whitespace(s[k]),
    ensures
        leading_word(s) == s.take(k),
    decreases k,
{
    if k == 0 {
        assert(s.take(0) =~= Seq::<char>::empty());
    } else {
        let t = s.drop_first();
        assert forall|j: int| 0 <= j < k - 1 implies !is_unicode_whitespace(#[trigger] t[j]) by {
            assert(t[j] == s[j + 1]);
        }
        assert(!is_unicode_whitespace(s[0]));
        lemma_leading_word_at(t, k - 1);
        assert(seq![s[0]] + t.take(k - 1) =~= s.take(k));
    }
}

fn first_word_chars(v: &Vec<char>) -> (r: Option<Vec<char>>)
    ensures
        r is Some <==> first_word(v@) is Some,
        r matches Some(w) ==> Some(w@) == first_word(v@),
{
    let mut i: usize = 0;
    let n = v.len();
    while i < n && is_whitespace(v[i])
        invariant
            i <= n == v.len(),
            forall|j: int| 0 <= j < i ==> is_unicode_whitespace(#[trigger] v@[j]),
        decreases n - i,
    {
        i += 1;
    }
    proof {
        crate::text::lemma_trim_start_at(v@, i as int);
    }
    if i == n {
        assert(v@.skip(i as int).len() == 0);
        return None;
    }
    let mut k = i;
    while k < n && !is_whitespace(v[k])
        invariant
            i <= k <= n == v.len(),
            forall|j: int| i <= j < k ==> !is_unicode_whitespace(#[trigger] v@[j]),
        decreases n - k,
    {
        k += 1;
    }
    proof {
        let t = v@.skip(i as int);
        assert forall|j: int| 0 <= j < k - i implies !is_unicode_whitespace(#[trigger] t[j]) by {
            assert(t[j] == v@[j + i]);
        }
        if k < n {
            assert(t[k - i] == v@[k as int]);
        }
        lemma_leading_word_at(t, k - i);
        assert(t.take(k - i) =~= v@.subrange(i as int, k as int));
    }
    Some(sub_chars(v, i, k))
}

/// The total memory in kibibytes that a `meminfo` text reports.
pub open spec fn meminfo_total_kb_spec(contents: Seq<char>) -> Option<Seq<char>> {
    match first_after_prefix(lines(contents), "MemTotal:"@) {
        Some(rest) => first_word(rest),
        None => None,
    }
}

/// The total memory that the `meminfo` text `contents` reports, as the text
/// of a number of kibibytes: the first word after `MemTotal:` in the first
/// line that starts with it.
pub fn meminfo_total_kb(contents: &str) -> (r: Option<String>)
    ensures
        r is Some <==> meminfo_total_kb_spec(contents@) is Some,
        r matches Some(kb) ==> Some(kb@) == meminfo_total_kb_spec(contents@),
{
    let ls = split_lines(&chars_of(contents));
    match find_after_prefix(&ls, "MemTotal:") {
        Some(rest) => match first_word_chars(&rest) {
            Some(w) => Some(string_from_chars(&w)),
            None => None,
        },
        None => None,
    }
}


proof fn lemma_first_after_prefix_at(ls: Seq<Seq<char>>, p: Seq<char>, i: int)
    requires
        0 <= i < ls.len(),
        has_prefix(ls[i], p),
        forall|j: int| 0 <= j < i ==> !has_prefix(#[trigger] ls[j], p),
    ensures
        first_after_prefix(ls, p) == Some(ls[i].skip(p.len() as int)),
    decreases i,
{
    if i > 0 {
        let t = ls.drop_first();
        assert(!has_prefix(ls[0], p));
        assert forall|j: int| 0 <= j < i - 1 implies !has_prefix(#[trigger] t[j], p) by {
            assert(t[j] == ls[j + 1]);
        }
        lemma_first_after_prefix_at(t, p, i - 1);
    }
}

proof fn lemma_first_after_prefix_none(ls: Seq<Seq<char>>, p: Seq<char>)
    requires
        forall|j: int| 0 <= j < ls.len() ==> !has_prefix(#[trigger] ls[j], p),
    ensures
        first_after_prefix(ls, p) is None,
    decreases ls.len(),
{
    if ls.len() > 0 {
        let t = ls.drop_first();
        assert(!has_prefix(ls[0], p));
        assert forall|j: int| 0 <= j < t.len() implies !has_prefix(#[trigger] t[j], p) by {
            assert(t[j] == ls[j + 1]);
        }
        lemma_first_after_prefix_none(t, p);
    }
}

/// A line with no line break, then a line break, then `rest`, splits into
/// that line and the lines of `rest`.
proof fn lemma_lines_of_line_then_rest(line: Seq<char>, rest: Seq<char>)
    requires
        !line.contains('\n'),
    ensures
        lines(line + seq!['\n'] + rest) == seq![strip_cr(line)] + lines(rest),
{
    let s = line + seq!['\n'] + rest;
    assert(s[line.len() as int] == '\n');
    assert forall|j: int| 0 <= j < line.len() implies s[j] != '\n' by {
        assert(s[j] == line[j]);
        if s[j] == '\n' {
            assert(line.contains('\n'));
        }
    }
    lemma_first_index_of_at(s, '\n', line.len() as int);
    assert(s.take(line.len() as int) =~= line);
    assert(s.skip(line.len() as int + 1) =~= rest);
}

/// `PRETTY_NAME` is read from the first line that starts with
/// `PRETTY_NAME=`, wherever that line stands: the value is the rest of that
/// line without surrounding quotes.
pub proof fn pretty_name_is_read_from_its_line(contents: Seq<char>, i: int)
    requires
        0 <= i < lines(contents).len(),
        has_prefix(lines(contents)[i], "PRETTY_NAME="@),
        forall|j: int| 0 <= j < i ==> !has_prefix(#[trigger] lines(contents)[j], "PRETTY_NAME="@),
    ensures
        os_release_pretty_name_spec(contents) == Some(
            trim_char(lines(contents)[i].skip("PRETTY_NAME="@.len() as int), '"'),
        ),
{
    lemma_first_after_prefix_at(lines(contents), "PRETTY_NAME="@, i);
}

/// Without a line that starts with `PRETTY_NAME=` there is no pretty name.
pub proof fn pretty_name_needs_its_line(contents: Seq<char>)
    requires
        forall|j: int| 0 <= j < lines(contents).len() ==> !has_prefix(#[trigger] lines(contents)[j], "PRETTY_NAME="@),
    ensures
        os_release_pretty_name_spec(contents) is None,
{
    lemma_first_after_prefix_none(lines(contents), "PRETTY_NAME="@);
}

/// A line put in front of an `os-release` text that does not start with
/// `PRETTY_NAME=` leaves its pretty name as it was.
pub proof fn pretty_name_ignores_other_lines_before_it(line: Seq<char>, contents: Seq<char>)
    requires
        !line.contains('\n'),
        !has_prefix(line, "PRETTY_NAME="@),
    ensures
        os_release_pretty_name_spec(line + seq!['\n'] + contents) == os_release_pretty_name_spec(contents),
{
    lemma_lines_of_line_then_rest(line, contents);
    let ls = lines(line + seq!['\n'] + contents);
    let p = "PRETTY_NAME="@;
    if has_prefix(strip_cr(line), p) {
        assert(line.take(p.len() as int) =~= strip_cr(line).take(p.len() as int));
    }
    assert(ls.drop_first() =~= lines(contents));
}

/// The processor's name is read from the first line that starts with
/// `model name`, wherever that line stands: the trimmed text after that
/// line's first `:`, or none where it has no `:`.
pub proof fn model_name_is_read_from_its_line(contents: Seq<char>, i: int)
    requires
        0 <= i < lines(contents).len(),
        has_prefix(lines(contents)[i], "model name"@),
        forall|j: int| 0 <= j < i ==> !has_prefix(#[trigger] lines(contents)[j], "model name"@),
    ensures
        cpuinfo_model_name_spec(contents) == (match first_index_of(lines(contents)[i], ':') {
            Some(k) => Some(trim(lines(contents)[i].skip(k + 1))),
            None => None,
        }),
{
    let line = lines(contents)[i];
    let p = "model name"@;
    lemma_first_after_prefix_at(lines(contents), p, i);
    let rest = line.skip(p.len() as int);
    reveal_strlit("model name");
    crate::text::lemma_first_index_of(line, ':');
    crate::text::lemma_first_index_of(rest, ':');
    assert forall|j: int| 0 <= j < p.len() implies line[j] != ':' by {
        assert(line[j] == line.take(p.len() as int)[j]);
    }
    match first_index_of(line, ':') {
        Some(k) => {
            assert(rest[k - p.len()] == ':');
            lemma_first_index_of_at(rest, ':', k - p.len());
            assert(rest.skip(k - p.len() + 1) =~= line.skip(k + 1));
        },
        None => {
            if let Some(m) = first_index_of(rest, ':') {
                assert(line[m + p.len()] == rest[m]);
            }
        },
    }
}

/// The total memory is read from the first line that starts with
/// `MemTotal:`, wherever that line stands: the first word after it.
pub proof fn memory_total_is_read_from_its_line(contents: Seq<char>, i: int)
    requires
        0 <= i < lines(contents).len(),
        has_prefix(lines(contents)[i], "MemTotal:"@),
        forall|j: int| 0 <= j < i ==> !has_prefix(#[trigger] lines(contents)[j], "MemTotal:"@),
    ensures
        meminfo_total_kb_spec(contents) == first_word(lines(contents)[i].skip("MemTotal:"@.len() as int)),
{
    lemma_first_after_prefix_at(lines(contents), "MemTotal:"@, i);
}

/// The text that `bytes` decode to when each invalid UTF-8 sequence becomes
/// U+FFFD, as `String::from_utf8_lossy` decodes them.
pub uninterp spec fn utf8_lossy(bytes: Seq<u8>) -> Seq<char>;

/// `String::from_utf8_lossy`: valid UTF-8 decodes as it is; the replacement
/// of invalid sequences follows rules of the std documentation that the
/// contract names rather than states.
#[verifier::external_body]
fn string_from_utf8_lossy(bytes: &[u8]) -> (r: String)
    ensures
        r@ == utf8_lossy(bytes@),
        valid_utf8(bytes@) ==> r@ == decode_utf8(bytes@),
{
    String::from_utf8_lossy(bytes).into_owned()
}

/// The non-empty trimmed lines among `ls`, in order.
pub open spec fn trimmed_items(ls: Seq<Seq<char>>) -> Seq<Seq<char>>
    decreases ls.len(),
{
    if ls.len() == 0 {
        Seq::empty()
    } else if trim(ls.last()).len() > 0 {
        trimmed_items(ls.drop_last()).push(trim(ls.last()))
    } else {
        trimmed_items(ls.drop_last())
    }
}

/// `items` joined with `sep` between each two of them.
pub open spec fn join(items: Seq<Seq<char>>, sep: Seq<char>) -> Seq<char>
    decreases items.len(),
{
    if items.len() == 0 {
        Seq::empty()
    } else if items.len() == 1 {
        items[0]
    } else {
        join(items.drop_last(), sep) + sep + items.last()
    }
}

/// What a helper command printed, as the log shows it: its non-blank lines,
/// trimmed, joined with `; `; `None` where nothing remains.
pub open spec fn command_output_summary_spec(stdout: Seq<u8>) -> Option<Seq<char>> {
    let value = join(trimmed_items(lines(utf8_lossy(stdout))), "; "@);
    if value.len() > 0 {
        Some(value)
    } else {
        None
    }
}

/// The standard output `stdout` of a helper command, as the log shows it: see
/// `command_output_summary_spec`.
pub fn command_output_summary(stdout: &[u8]) -> (r: Option<String>)
    ensures
        r is Some <==> command_output_summary_spec(stdout@) is Some,
        r matches Some(v) ==> Some(v@) == command_output_summary_spec(stdout@),
{
    let text = string_from_utf8_lossy(stdout);
    let ls = split_lines(&chars_of(text.as_str()));
    let ghost all = views(ls@);
    let mut value: Vec<char> = Vec::new();
    let mut any = false;
    let mut i: usize = 0;
    assert(all.take(0) =~= Seq::<Seq<char>>::empty());
    while i < ls.len()
        invariant
            i <= ls.len(),
            all == views(ls@),
            any == (trimmed_items(all.take(i as int)).len() > 0),
            value@ == join(trimmed_items(all.take(i as int)), "; "@),
        decreases ls.len() - i,
    {
        let line = &ls[i];
        assert(all[i as int] == line@);
        assert(all.take(i + 1).drop_last() =~= all.take(i as int));
        let (a, b) = trim_bounds(line);
        if a < b {
            let ghost before = trimmed_items(all.take(i as int));
            if any {
                push_str(&mut value, "; ");
            }
            let mut item = sub_chars(line, a, b);
            value.append(&mut item);
            proof {
                let after = before.push(trim(all[i as int]));
                assert(after.drop_last() =~= before);
                if before.len() == 0 {
                    assert(join(before, "; "@) =~= Seq::<char>::empty());
                    assert(value@ =~= join(after, "; "@));
                }
            }
            any = true;
        }
        i += 1;
    }
    assert(all.take(ls.len() as int) =~= all);
    if value.len() > 0 {
        Some(string_from_chars(&value))
    } else {
        None
    }
}

} // verus!
