//! Mining of session logs: mermaid diagrams found in the text of `.jsonl`
//! session files, and the file paths mentioned around them.  Reading the log
//! directory is left to the caller, which hands in each file's text.
//!
//! Enrichments are an association list from a key (a file path, or `*` and a
//! lowercased title word) to a description; the first description recorded
//! for a key stays.
use vstd::prelude::*;
use crate::text::{
    chars_of, copy_range, eq_str, ends_with_str, has_infix, has_prefix, has_suffix,
    is_whitespace, is_ws, lead_ws, lines, lines_of, push_chars, push_str, starts_with_str,
    string_from, to_lowercase, trim, trim_chars, trim_start, unicode_lowercase, views,
    contains_str, occurs_at_exec,
};

verus! {

// ─── Unescaping ────────────────────────────────────────────────

/// Every `\` followed by `c`, left to right without overlap, becomes `r`.
pub open spec fn replace_escape(s: Seq<char>, c: char, r: char) -> Seq<char>
    decreases s.len(),
{
    if s.len() == 0 {
        seq![]
    } else if s.len() >= 2 && s[0] == '\\' && s[1] == c {
        seq![r] + replace_escape(s.subrange(2, s.len() as int), c, r)
    } else {
        seq![s[0]] + replace_escape(s.drop_first(), c, r)
    }
}

/// JSONL escapes `\n` and `\t` turned back into a newline and a tab.
pub open spec fn unescape_spec(raw: Seq<char>) -> Seq<char> {
    replace_escape(replace_escape(raw, 'n', '\n'), 't', '\t')
}

fn replace_escape_exec(s: &[char], c: char, r: char) -> (res: Vec<char>)
    ensures
        res@ == replace_escape(s@, c, r),
{
    let mut out: Vec<char> = Vec::new();
    let mut i: usize = 0;
    assert(s@.subrange(0, s.len() as int) =~= s@);
    while i < s.len()
        invariant
            i <= s.len(),
            replace_escape(s@, c, r) == out@ + replace_escape(s@.subrange(i as int, s.len() as int), c, r),
        decreases s.len() - i,
    {
        let ghost t = s@.subrange(i as int, s.len() as int);
        if i + 1 < s.len() && s[i] == '\\' && s[i + 1] == c {
            assert(t.subrange(2, t.len() as int) =~= s@.subrange(i + 2, s.len() as int));
            out.push(r);
            i += 2;
        } else {
            assert(t.drop_first() =~= s@.subrange(i + 1, s.len() as int));
            out.push(s[i]);
            i += 1;
        }
    }
    assert(s@.subrange(i as int, s.len() as int) =~= Seq::<char>::empty());
    assert(out@ + seq![] =~= out@);
    out
}

/// `raw.replace("\\n", "\n").replace("\\t", "\t")`.
pub fn unescape(raw: &str) -> (res: String)
    ensures
        res@ == unescape_spec(raw@),
{
    let rc = chars_of(raw);
    let a = replace_escape_exec(&rc, 'n', '\n');
    let b = replace_escape_exec(&a, 't', '\t');
    string_from(&b)
}

// ─── Words ─────────────────────────────────────────────────────

/// Index of the first whitespace character, or the length.
pub open spec fn word_end(s: Seq<char>) -> nat
    decreases s.len(),
{
    if s.len() == 0 || is_ws(s[0]) {
        0
    } else {
        1 + word_end(s.drop_first())
    }
}

/// `str::split_whitespace`: the maximal runs of non-whitespace characters.
pub open spec fn words(s: Seq<char>) -> Seq<Seq<char>>
    decreases s.len(),
{
    let t = trim_start(s);
    if t.len() == 0 {
        seq![]
    } else {
        proof {
            lemma_lead_ws_bounds(s);
        }
        let k = word_end(t);
        if k == 0 || k > t.len() {
            seq![]
        } else {
            seq![t.take(k as int)] + words(t.skip(k as int))
        }
    }
}

pub proof fn lemma_lead_ws_bounds(s: Seq<char>)
    ensures
        lead_ws(s) <= s.len(),
        forall|j: int| 0 <= j < lead_ws(s) ==> is_ws(s[j]),
        lead_ws(s) < s.len() ==> !is_ws(s[lead_ws(s) as int]),
    decreases s.len(),
{
    if s.len() > 0 && is_ws(s[0]) {
        lemma_lead_ws_bounds(s.drop_first());
        assert forall|j: int| 0 <= j < lead_ws(s) implies is_ws(s[j]) by {
            if j > 0 {
                assert(s[j] == s.drop_first()[j - 1]);
            }
        }
    }
}

proof fn lemma_lead_ws_at(s: Seq<char>, k: int)
    requires
        0 <= k <= s.len(),
        forall|j: int| 0 <= j < k ==> is_ws(s[j]),
        k == s.len() || !is_ws(s[k]),
    ensures
        lead_ws(s) == k,
    decreases k,
{
    if k > 0 {
        lemma_lead_ws_at(s.drop_first(), k - 1);
    }
}

proof fn lemma_word_end_at(s: Seq<char>, k: int)
    requires
        0 <= k <= s.len(),
        forall|j: int| 0 <= j < k ==> !is_ws(s[j]),
        k == s.len() || is_ws(s[k]),
    ensures
        word_end(s) == k,
    decreases k,
{
    if k > 0 {
        lemma_word_end_at(s.drop_first(), k - 1);
    }
}

/// The whitespace-separated words of `s`.
pub fn split_words(s: &[char]) -> (res: Vec<Vec<char>>)
    ensures
        views(res@) == words(s@),
{
    let mut res: Vec<Vec<char>> = Vec::new();
    let mut i: usize = 0;
    assert(s@.subrange(0, s.len() as int) =~= s@);
    while i < s.len()
        invariant
            i <= s.len(),
            words(s@) == views(res@) + words(s@.subrange(i as int, s.len() as int)),
        decreases s.len() - i,
    {
        let ghost t0 = s@.subrange(i as int, s.len() as int);
        let mut a: usize = i;
        while a < s.len() && is_whitespace(s[a])
            invariant
                i <= a <= s.len(),
                forall|j: int| i <= j < a ==> is_ws(s@[j]),
            decreases s.len() - a,
        {
            a += 1;
        }
        proof {
            assert forall|j: int| 0 <= j < a - i implies is_ws(t0[j]) by {
                assert(t0[j] == s@[i + j]);
            }
            if a < s.len() {
                assert(t0[a - i] == s@[a as int]);
            }
            lemma_lead_ws_at(t0, a - i);
            assert(trim_start(t0) =~= s@.subrange(a as int, s.len() as int));
        }
        if a == s.len() {
            assert(words(t0) =~= Seq::<Seq<char>>::empty());
            assert(s@.subrange(a as int, s.len() as int) =~= Seq::<char>::empty());
            i = a;
            assert(words(s@) =~= views(res@) + words(s@.subrange(i as int, s.len() as int))) by {
                assert(words(s@.subrange(i as int, s.len() as int)) =~= Seq::<Seq<char>>::empty());
            }
        } else {
            let mut b: usize = a;
            while b < s.len() && !is_whitespace(s[b])
                invariant
                    a <= b <= s.len(),
                    forall|j: int| a <= j < b ==> !is_ws(s@[j]),
                decreases s.len() - b,
            {
                b += 1;
            }
            let w = copy_range(s, a, b);
            proof {
                let t = s@.subrange(a as int, s.len() as int);
                assert forall|j: int| 0 <= j < b - a implies !is_ws(t[j]) by {
                    assert(t[j] == s@[a + j]);
                }
                if b < s.len() {
                    assert(t[b - a] == s@[b as int]);
                }
                lemma_word_end_at(t, b - a);
                assert(t.take(b - a) =~= w@);
                assert(t.skip(b - a) =~= s@.subrange(b as int, s.len() as int));
                assert(!is_ws(s@[a as int]));
                assert(words(t0) == seq![w@] + words(s@.subrange(b as int, s.len() as int)));
            }
            let ghost before = res@;
            res.push(w);
            assert(views(res@) =~= views(before).push(w@));
            i = b;
        }
    }
    proof {
        assert(s@.subrange(i as int, s.len() as int) =~= Seq::<char>::empty());
        assert(words(Seq::<char>::empty()) =~= Seq::<Seq<char>>::empty());
        assert(views(res@) + Seq::<Seq<char>>::empty() =~= views(res@));
    }
    res
}

// ─── Diagram type and title ────────────────────────────────────

/// The first line that is not blank and does not start with `%%`.
pub open spec fn first_content_line(ls: Seq<Seq<char>>) -> Option<Seq<char>>
    decreases ls.len(),
{
    if ls.len() == 0 {
        None
    } else if trim(ls[0]).len() > 0 && !has_prefix(ls[0], "%%"@) {
        Some(ls[0])
    } else {
        first_content_line(ls.drop_first())
    }
}

/// The first word of the first content line, lowercased.
pub open spec fn diagram_type_spec(mermaid: Seq<char>) -> Seq<char> {
    unicode_lowercase(
        match first_content_line(lines_of(mermaid)) {
            Some(l) => if words(l).len() > 0 {
                words(l)[0]
            } else {
                seq![]
            },
            None => seq![],
        },
    )
}

/// The type of a mermaid diagram: the first word of its first line that is
/// not blank and not a `%%` comment, lowercased.
pub fn diagram_type(mermaid: &str) -> (res: String)
    ensures
        res@ == diagram_type_spec(mermaid@),
{
    let mc = chars_of(mermaid);
    let ls = lines(&mc);
    let ghost lv = views(ls@);
    let mut i: usize = 0;
    assert(lv.subrange(0, lv.len() as int) =~= lv);
    while i < ls.len()
        invariant
            i <= ls.len(),
            lv == views(ls@),
            lv == lines_of(mermaid@),
            first_content_line(lv) == first_content_line(lv.subrange(i as int, lv.len() as int)),
        decreases ls.len() - i,
    {
        let ghost rest = lv.subrange(i as int, lv.len() as int);
        assert(rest[0] == ls@[i as int]@);
        assert(rest.drop_first() =~= lv.subrange(i + 1, lv.len() as int));
        let t = trim_chars(&ls[i]);
        if t.len() > 0 && !starts_with_str(&ls[i], "%%") {
            let mut word: Vec<char> = Vec::new();
            let ws = split_words(&ls[i]);
            if ws.len() > 0 {
                push_chars(&mut word, &ws[0]);
                assert(word@ =~= ws@[0]@);
            }
            let lowered = to_lowercase(string_from(&word).as_str());
            return lowered;
        }
        i += 1;
    }
    assert(lv.subrange(i as int, lv.len() as int) =~= Seq::<Seq<char>>::empty());
    let word: Vec<char> = Vec::new();
    to_lowercase(string_from(&word).as_str())
}

/// The title of the first `---` frontmatter block: the trimmed text after
/// `title:` on a trimmed line inside it.
pub open spec fn title_from(ls: Seq<Seq<char>>, in_frontmatter: bool) -> Option<Seq<char>>
    decreases ls.len(),
{
    if ls.len() == 0 {
        None
    } else {
        let t = trim(ls[0]);
        if t == "---"@ {
            if in_frontmatter {
                None
            } else {
                title_from(ls.drop_first(), true)
            }
        } else if in_frontmatter && has_prefix(t, "title:"@) {
            Some(trim(t.skip(6)))
        } else {
            title_from(ls.drop_first(), in_frontmatter)
        }
    }
}

pub open spec fn title_spec(content: Seq<char>) -> Option<Seq<char>> {
    title_from(lines_of(content), false)
}

/// Extract title from mermaid frontmatter.
pub fn extract_title_from_mermaid(content: &str) -> (res: Option<String>)
    ensures
        match res {
            Some(t) => title_spec(content@) == Some(t@),
            None => title_spec(content@) is None,
        },
{
    let cc = chars_of(content);
    let ls = lines(&cc);
    let ghost lv = views(ls@);
    let mut in_frontmatter = false;
    let mut i: usize = 0;
    assert(lv.subrange(0, lv.len() as int) =~= lv);
    while i < ls.len()
        invariant
            i <= ls.len(),
            lv == views(ls@),
            lv == lines_of(content@),
            title_from(lv, false) == title_from(lv.subrange(i as int, lv.len() as int), in_frontmatter),
        decreases ls.len() - i,
    {
        let ghost rest = lv.subrange(i as int, lv.len() as int);
        assert(rest[0] == ls@[i as int]@);
        assert(rest.drop_first() =~= lv.subrange(i + 1, lv.len() as int));
        let trimmed = trim_chars(&ls[i]);
        if eq_str(&trimmed, "---") {
            if in_frontmatter {
                return None;
            }
            in_frontmatter = true;
        } else if in_frontmatter && starts_with_str(&trimmed, "title:") {
            proof {
                reveal_strlit("title:");
            }
            let after = copy_range(&trimmed, 6, trimmed.len());
            assert(after@ =~= trimmed@.skip(6));
            let value = trim_chars(&after);
            return Some(string_from(&value));
        }
        i += 1;
    }
    assert(lv.subrange(i as int, lv.len() as int) =~= Seq::<Seq<char>>::empty());
    None
}

// ─── Byte offsets ──────────────────────────────────────────────

/// Bytes of a character in UTF-8 (`char::len_utf8`).
pub open spec fn char_width(c: char) -> nat {
    let u = c as u32;
    if u < 0x80 {
        1
    } else if u < 0x800 {
        2
    } else if u < 0x10000 {
        3
    } else {
        4
    }
}

/// Bytes of a text in UTF-8.
pub open spec fn byte_len(s: Seq<char>) -> nat
    decreases s.len(),
{
    if s.len() == 0 {
        0
    } else {
        byte_len(s.drop_last()) + char_width(s.last())
    }
}

/// The character index at byte offset `b`, or -1 when `b` is not a character
/// boundary of the text.
pub open spec fn char_index(s: Seq<char>, b: int) -> int
    decreases s.len(),
{
    if b == 0 {
        0
    } else if s.len() == 0 || b < char_width(s[0]) {
        -1
    } else {
        let r = char_index(s.drop_first(), b - char_width(s[0]));
        if r < 0 {
            -1
        } else {
            r + 1
        }
    }
}

fn char_width_exec(c: char) -> (res: usize)
    ensures
        res == char_width(c),
{
    let u = c as u32;
    if u < 0x80 {
        1
    } else if u < 0x800 {
        2
    } else if u < 0x10000 {
        3
    } else {
        4
    }
}

/// Bytes of a text: `str::len`.
fn byte_len_exec(s: &[char]) -> (res: usize)
    ensures
        res as nat == byte_len(s@) || (res == usize::MAX && byte_len(s@) >= usize::MAX),
{
    let mut n: usize = 0;
    let mut i: usize = 0;
    while i < s.len()
        invariant
            i <= s.len(),
            n as nat == byte_len(s@.take(i as int)) || (n == usize::MAX && byte_len(s@.take(i as int)) >= usize::MAX),
        decreases s.len() - i,
    {
        assert(s@.take(i + 1).drop_last() =~= s@.take(i as int));
        let w = char_width_exec(s[i]);
        n = n.saturating_add(w);
        i += 1;
    }
    assert(s@.take(s.len() as int) =~= s@);
    n
}

/// The character index at a byte offset (see `char_index`).
fn char_index_exec(s: &[char], b: usize) -> (res: Option<usize>)
    ensures
        match res {
            Some(k) => char_index(s@, b as int) == k as int && k <= s.len(),
            None => char_index(s@, b as int) == -1,
        },
{
    let mut i: usize = 0;
    let mut rem: usize = b;
    assert(s@.subrange(0, s.len() as int) =~= s@);
    while i < s.len() && rem > 0
        invariant
            i <= s.len(),
            rem <= b,
            char_index(s@, b as int) == if char_index(s@.subrange(i as int, s.len() as int), rem as int) < 0 {
                -1
            } else {
                char_index(s@.subrange(i as int, s.len() as int), rem as int) + i
            },
        decreases s.len() - i,
    {
        let w = char_width_exec(s[i]);
        let ghost t = s@.subrange(i as int, s.len() as int);
        assert(t[0] == s@[i as int]);
        assert(t.drop_first() =~= s@.subrange(i + 1, s.len() as int));
        if rem < w {
            return None;
        }
        rem -= w;
        i += 1;
    }
    if rem == 0 {
        Some(i)
    } else {
        None
    }
}

// ─── Context window ────────────────────────────────────────────

pub open spec fn window_start(pos: int, window: int) -> int {
    if pos >= window {
        pos - window
    } else {
        0
    }
}

pub open spec fn window_end(len: int, pos: int, window: int) -> int {
    if pos + window < len {
        pos + window
    } else {
        len
    }
}

/// Slicing the window out of the text is possible: it is not reversed and
/// both of its ends fall on character boundaries.
pub open spec fn window_ok(s: Seq<char>, pos: int, window: int) -> bool {
    let a = window_start(pos, window);
    let e = window_end(byte_len(s) as int, pos, window);
    &&& 0 <= pos && 0 <= window && pos + window <= usize::MAX
    &&& a <= e
    &&& char_index(s, a) >= 0
    &&& char_index(s, e) >= 0
}

/// The text between `pos - window` and `pos + window` bytes, clamped to the
/// text.
pub open spec fn window_text(s: Seq<char>, pos: int, window: int) -> Seq<char> {
    let a = window_start(pos, window);
    let e = window_end(byte_len(s) as int, pos, window);
    s.subrange(char_index(s, a), char_index(s, e))
}


proof fn lemma_char_index_monotone(s: Seq<char>, b1: int, b2: int)
    requires
        0 <= b1 <= b2,
        char_index(s, b1) >= 0,
        char_index(s, b2) >= 0,
    ensures
        char_index(s, b1) <= char_index(s, b2),
    decreases s.len(),
{
    if b1 > 0 {
        lemma_char_index_monotone(s.drop_first(), b1 - char_width(s[0]), b2 - char_width(s[0]));
    }
}

/// Get a window of text around a position in the content.
pub fn get_context_window(content: &str, pos: usize, window: usize) -> (res: String)
    requires
        window_ok(content@, pos as int, window as int),
    ensures
        res@ == window_text(content@, pos as int, window as int),
{
    let cc = chars_of(content);
    let len = byte_len_exec(&cc);
    let start = pos.saturating_sub(window);
    let end = if pos + window < len { pos + window } else { len };
    proof {
        assert(start as int == window_start(pos as int, window as int));
        assert(end as int == window_end(byte_len(content@) as int, pos as int, window as int));
    }
    let a = char_index_exec(&cc, start);
    let e = char_index_exec(&cc, end);
    proof {
        lemma_char_index_monotone(content@, start as int, end as int);
    }
    match (a, e) {
        (Some(a), Some(e)) => {
            if a <= e && e <= cc.len() {
                string_from(&copy_range(&cc, a, e))
            } else {
                String::new()
            }
        },
        _ => String::new(),
    }
}

// ─── Regular expressions (the `regex` crate) ───────────────────

/// Whether `regex::Regex::new` accepts the pattern.
pub uninterp spec fn regex_valid(pattern: Seq<char>) -> bool;

/// The successive matches of `Regex::captures_iter`: for each, the byte
/// offset where the whole match starts, and the text of group 1 when it took
/// part in the match.
pub uninterp spec fn regex_captures(pattern: Seq<char>, text: Seq<char>) -> Seq<(usize, Option<Seq<char>>)>;

pub open spec fn capture_views(v: Seq<(usize, Option<String>)>) -> Seq<(usize, Option<Seq<char>>)> {
    v.map_values(
        |c: (usize, Option<String>)|
            (
                c.0,
                match c.1 {
                    Some(s) => Some(s@),
                    None => None,
                },
            ),
    )
}

/// Compiles `pattern` with `regex::Regex::new` and lists the matches of
/// `captures_iter` on `text` (`None` when the pattern is refused).  Besides
/// the two names, the contract states what the crate documents of
/// `Match::start`: it is a byte offset within the text that falls on a
/// character boundary.
#[verifier::external_body]
pub(crate) fn regex_captures_group1(pattern: &str, text: &str) -> (res: Option<Vec<(usize, Option<String>)>>)
    ensures
        res.is_some() == regex_valid(pattern@),
        res matches Some(v) ==> capture_views(v@) == regex_captures(pattern@, text@),
        res matches Some(v) ==> forall|k: int|
            0 <= k < v.len() ==> char_index(text@, (#[trigger] v@[k]).0 as int) >= 0,
{
    match regex::Regex::new(pattern) {
        Ok(re) => Some(
            re.captures_iter(text).map(
                |c| (c.get_match().start(), c.get(1).map(|m| m.as_str().to_string())),
            ).collect(),
        ),
        Err(_) => None,
    }
}

/// Mermaid code blocks, with real or JSON-escaped newlines.
pub const MERMAID_BLOCK_PATTERN: &'static str = r"```mermaid(?:\\n|\n)([\s\S]*?)(?:\\n|\n)```";

/// File paths with a known extension, at the start or after a space or quote.
pub const FILE_PATH_PATTERN: &'static str = r#"(?:^|[\s`'"])([a-zA-Z0-9_./-]{3,200}\.(?:rs|ts|tsx|js|py|toml|json|md|mermaid|mmd|sql|yaml|yml))"#;

/// The distinct group-1 texts that do not contain `http`, in order of first
/// appearance.
pub open spec fn collect_paths_spec(caps: Seq<(usize, Option<Seq<char>>)>) -> Seq<Seq<char>>
    decreases caps.len(),
{
    if caps.len() == 0 {
        seq![]
    } else {
        let prev = collect_paths_spec(caps.drop_last());
        match caps.last().1 {
            Some(p) => if !has_infix(p, "http"@) && !prev.contains(p) {
                prev.push(p)
            } else {
                prev
            },
            None => prev,
        }
    }
}

fn contains_string(v: &Vec<String>, s: &Vec<char>) -> (res: bool)
    ensures
        res == v@.map_values(|x: String| x@).contains(s@),
{
    let ghost vs = v@.map_values(|x: String| x@);
    let mut i: usize = 0;
    while i < v.len()
        invariant
            i <= v.len(),
            vs == v@.map_values(|x: String| x@),
            forall|j: int| 0 <= j < i ==> vs[j] != s@,
        decreases v.len() - i,
    {
        let c = chars_of(v[i].as_str());
        if crate::text::eq_chars(&c, s) {
            assert(vs[i as int] == s@);
            return true;
        }
        i += 1;
    }
    false
}

/// The paths named by a list of captures (see `collect_paths_spec`).
pub fn collect_paths(caps: &Vec<(usize, Option<String>)>) -> (res: Vec<String>)
    ensures
        res@.map_values(|x: String| x@) == collect_paths_spec(capture_views(caps@)),
{
    let ghost cv = capture_views(caps@);
    let mut paths: Vec<String> = Vec::new();
    let mut i: usize = 0;
    while i < caps.len()
        invariant
            i <= caps.len(),
            cv == capture_views(caps@),
            paths@.map_values(|x: String| x@) == collect_paths_spec(cv.take(i as int)),
        decreases caps.len() - i,
    {
        assert(cv.take(i + 1).drop_last() =~= cv.take(i as int));
        assert(cv.take(i + 1).last() == cv[i as int]);
        if let Some(p) = &caps[i].1 {
            let pc = chars_of(p.as_str());
            if !contains_str(&pc, "http") && !contains_string(&paths, &pc) {
                let ghost before = paths@;
                paths.push(string_from(&pc));
                assert(paths@.map_values(|x: String| x@) =~= before.map_values(|x: String| x@).push(p@));
            }
        }
        i += 1;
    }
    assert(cv.take(caps.len() as int) =~= cv);
    paths
}

/// The file paths mentioned in a text; empty when the pattern is refused.
pub open spec fn file_paths_spec(text: Seq<char>) -> Seq<Seq<char>> {
    if regex_valid(FILE_PATH_PATTERN@) {
        collect_paths_spec(regex_captures(FILE_PATH_PATTERN@, text))
    } else {
        seq![]
    }
}

/// Extract file paths from text: the distinct paths with a known extension,
/// in order, without those containing `http`.
pub fn extract_file_paths(text: &str) -> (res: Vec<String>)
    ensures
        res@.map_values(|x: String| x@) == file_paths_spec(text@),
{
    match regex_captures_group1(FILE_PATH_PATTERN, text) {
        Some(caps) => collect_paths(&caps),
        None => {
            let v: Vec<String> = Vec::new();
            assert(v@.map_values(|x: String| x@) =~= Seq::<Seq<char>>::empty());
            v
        },
    }
}


// ─── Enrichments ───────────────────────────────────────────────

pub open spec fn enrichments_view(m: Seq<(String, String)>) -> Seq<(Seq<char>, Seq<char>)> {
    m.map_values(|e: (String, String)| (e.0@, e.1@))
}

pub open spec fn has_key(m: Seq<(Seq<char>, Seq<char>)>, k: Seq<char>) -> bool {
    exists|i: int| 0 <= i < m.len() && m[i].0 == k
}

/// `entry(k).or_insert(v)`: the pair is added only when the key is new.
pub open spec fn insert_absent(m: Seq<(Seq<char>, Seq<char>)>, k: Seq<char>, v: Seq<char>) -> Seq<(Seq<char>, Seq<char>)> {
    if has_key(m, k) {
        m
    } else {
        m.push((k, v))
    }
}

/// Each mentioned `.mermaid` or `.mmd` file gets the description.
pub open spec fn add_diagram_files(
    m: Seq<(Seq<char>, Seq<char>)>,
    files: Seq<Seq<char>>,
    desc: Seq<char>,
) -> Seq<(Seq<char>, Seq<char>)>
    decreases files.len(),
{
    if files.len() == 0 {
        m
    } else {
        let m1 = add_diagram_files(m, files.drop_last(), desc);
        let f = files.last();
        if has_suffix(f, ".mermaid"@) || has_suffix(f, ".mmd"@) {
            insert_absent(m1, f, desc)
        } else {
            m1
        }
    }
}

/// Each title word longer than 3 bytes becomes the key `*word`, lowercased.
pub open spec fn add_title_words(
    m: Seq<(Seq<char>, Seq<char>)>,
    ws: Seq<Seq<char>>,
    title: Seq<char>,
) -> Seq<(Seq<char>, Seq<char>)>
    decreases ws.len(),
{
    if ws.len() == 0 {
        m
    } else {
        let m1 = add_title_words(m, ws.drop_last(), title);
        let w = ws.last();
        let lower = unicode_lowercase(w);
        if byte_len(w) > 3 && lower.len() > 0 {
            insert_absent(m1, "*"@ + lower, title)
        } else {
            m1
        }
    }
}

/// What one mermaid block adds.
pub open spec fn mermaid_step(
    content: Seq<char>,
    cap: (usize, Option<Seq<char>>),
    m: Seq<(Seq<char>, Seq<char>)>,
) -> Seq<(Seq<char>, Seq<char>)> {
    match cap.1 {
        None => m,
        Some(raw) => {
            let mermaid = unescape_spec(raw);
            let title = title_spec(mermaid);
            let files = file_paths_spec(window_text(content, cap.0 as int, 500));
            let desc = match title {
                Some(t) => t,
                None => diagram_type_spec(mermaid) + " diagram"@,
            };
            let m1 = add_diagram_files(m, files, desc);
            match title {
                Some(t) => add_title_words(m1, words(t), t),
                None => m1,
            }
        },
    }
}

/// What all the blocks add, in order.
pub open spec fn mermaid_fold(
    content: Seq<char>,
    caps: Seq<(usize, Option<Seq<char>>)>,
    m: Seq<(Seq<char>, Seq<char>)>,
) -> Seq<(Seq<char>, Seq<char>)>
    decreases caps.len(),
{
    if caps.len() == 0 {
        m
    } else {
        mermaid_step(content, caps.last(), mermaid_fold(content, caps.drop_last(), m))
    }
}

/// Every block's context window can be sliced out of the content.
pub open spec fn windows_ok(content: Seq<char>, caps: Seq<(usize, Option<Seq<char>>)>) -> bool {
    forall|k: int|
        0 <= k < caps.len() ==> (#[trigger] caps[k]).1 is Some ==> window_ok(
            content,
            caps[k].0 as int,
            500,
        )
}

/// `entry(key).or_insert(value)` on the list.
pub fn insert_absent_exec(m: &mut Vec<(String, String)>, key: String, value: String)
    ensures
        enrichments_view(final(m)@) == insert_absent(enrichments_view(old(m)@), key@, value@),
{
    let ghost mv = enrichments_view(m@);
    let kc = chars_of(key.as_str());
    let mut i: usize = 0;
    while i < m.len()
        invariant
            i <= m.len(),
            mv == enrichments_view(m@),
            kc@ == key@,
            forall|j: int| 0 <= j < i ==> mv[j].0 != key@,
        decreases m.len() - i,
    {
        let c = chars_of(m[i].0.as_str());
        if crate::text::eq_chars(&c, &kc) {
            assert(mv[i as int].0 == key@);
            return;
        }
        i += 1;
    }
    let ghost before = m@;
    m.push((key, value));
    assert(enrichments_view(m@) =~= enrichments_view(before).push((key@, value@)));
}

fn is_word_long(w: &[char]) -> (res: bool)
    ensures
        res == (byte_len(w@) > 3),
{
    let n = byte_len_exec(w);
    n > 3
}

/// Records what the mermaid blocks found in `content` tell about files: each
/// `.mermaid` / `.mmd` path mentioned within 500 bytes of a block gets the
/// block's title (or `<type> diagram`), and each long title word becomes a
/// `*word` key for the title.
pub fn record_mermaid_blocks(
    content: &str,
    caps: &Vec<(usize, Option<String>)>,
    enrichments: &mut Vec<(String, String)>,
)
    requires
        windows_ok(content@, capture_views(caps@)),
    ensures
        enrichments_view(final(enrichments)@) == mermaid_fold(
            content@,
            capture_views(caps@),
            enrichments_view(old(enrichments)@),
        ),
{
    let ghost cv = capture_views(caps@);
    let ghost m0 = enrichments_view(enrichments@);
    let mut i: usize = 0;
    while i < caps.len()
        invariant
            i <= caps.len(),
            cv == capture_views(caps@),
            windows_ok(content@, cv),
            enrichments_view(enrichments@) == mermaid_fold(content@, cv.take(i as int), m0),
        decreases caps.len() - i,
    {
        assert(cv.take(i + 1).drop_last() =~= cv.take(i as int));
        assert(cv.take(i + 1).last() == cv[i as int]);
        if let Some(raw_mermaid) = &caps[i].1 {
            assert(cv[i as int].1 is Some);
            // Unescape JSONL escapes
            let mermaid = unescape(raw_mermaid.as_str());
            // Extract diagram type
            let diagram = diagram_type(mermaid.as_str());
            // Extract title from frontmatter if present
            let title = extract_title_from_mermaid(mermaid.as_str());
            // Look for file paths mentioned near this mermaid block
            let context_window = get_context_window(content, caps[i].0, 500);
            let mentioned_files = extract_file_paths(context_window.as_str());
            let ghost fs = mentioned_files@.map_values(|x: String| x@);
            let desc: String = match &title {
                Some(t) => t.clone(),
                None => {
                    let mut d = diagram.clone();
                    d.append(" diagram");
                    d
                },
            };
            let ghost start = enrichments_view(enrichments@);
            // Build enrichment: associate mermaid context with mentioned files
            let mut j: usize = 0;
            while j < mentioned_files.len()
                invariant
                    j <= mentioned_files.len(),
                    fs == mentioned_files@.map_values(|x: String| x@),
                    enrichments_view(enrichments@) == add_diagram_files(start, fs.take(j as int), desc@),
                decreases mentioned_files.len() - j,
            {
                assert(fs.take(j + 1).drop_last() =~= fs.take(j as int));
                assert(fs.take(j + 1).last() == mentioned_files@[j as int]@);
                let fc = chars_of(mentioned_files[j].as_str());
                if ends_with_str(&fc, ".mermaid") || ends_with_str(&fc, ".mmd") {
                    insert_absent_exec(enrichments, mentioned_files[j].clone(), desc.clone());
                }
                j += 1;
            }
            assert(fs.take(mentioned_files.len() as int) =~= fs);
            // Also try to match by diagram type to known file patterns
            if let Some(t) = &title {
                let tc = chars_of(t.as_str());
                let key_words = split_words(&tc);
                let ghost ws = views(key_words@);
                let ghost start2 = enrichments_view(enrichments@);
                let mut k: usize = 0;
                while k < key_words.len()
                    invariant
                        k <= key_words.len(),
                        ws == views(key_words@),
                        enrichments_view(enrichments@) == add_title_words(start2, ws.take(k as int), t@),
                    decreases key_words.len() - k,
                {
                    assert(ws.take(k + 1).drop_last() =~= ws.take(k as int));
                    assert(ws.take(k + 1).last() == key_words@[k as int]@);
                    if is_word_long(&key_words[k]) {
                        let lower = to_lowercase(string_from(&key_words[k]).as_str());
                        if lower.as_str().is_empty() == false {
                            let mut key = String::from_str("*");
                            key.append(lower.as_str());
                            insert_absent_exec(enrichments, key, t.clone());
                        }
                    }
                    k += 1;
                }
                assert(ws.take(key_words.len() as int) =~= ws);
            }
        }
        i += 1;
    }
    assert(cv.take(caps.len() as int) =~= cv);
}

fn window_is_ok(cc: &Vec<char>, len: usize, pos: usize, window: usize) -> (res: bool)
    requires
        len as nat == byte_len(cc@) || (len == usize::MAX && byte_len(cc@) >= usize::MAX),
    ensures
        res == window_ok(cc@, pos as int, window as int),
{
    if pos > usize::MAX - window {
        return false;
    }
    let start = pos - if pos >= window { window } else { pos };
    let end = if pos + window < len { pos + window } else { len };
    proof {
        assert(start as int == window_start(pos as int, window as int));
        assert(end as int == window_end(byte_len(cc@) as int, pos as int, window as int));
    }
    let a = char_index_exec(cc, start);
    let e = char_index_exec(cc, end);
    match (a, e) {
        (Some(_), Some(_)) => start <= end,
        _ => false,
    }
}

fn windows_are_ok(content: &str, caps: &Vec<(usize, Option<String>)>) -> (res: bool)
    ensures
        res == windows_ok(content@, capture_views(caps@)),
{
    let cc = chars_of(content);
    let len = byte_len_exec(&cc);
    let ghost cv = capture_views(caps@);
    let mut i: usize = 0;
    while i < caps.len()
        invariant
            i <= caps.len(),
            cc@ == content@,
            len as nat == byte_len(content@) || (len == usize::MAX && byte_len(content@) >= usize::MAX),
            cv == capture_views(caps@),
            forall|k: int| 0 <= k < i ==> (#[trigger] cv[k]).1 is Some ==> window_ok(content@, cv[k].0 as int, 500),
        decreases caps.len() - i,
    {
        if caps[i].1.is_some() {
            assert(cv[i as int].1 is Some);
            if !window_is_ok(&cc, len, caps[i].0, 500) {
                return false;
            }
        }
        i += 1;
    }
    true
}

/// Extract mermaid diagrams and their surrounding conversation context.
/// Returns `false`, and leaves the enrichments unchanged, where a context
/// window would not start and end on character boundaries (a byte slice
/// there would panic), or where the block pattern were refused.
pub fn extract_mermaid_context(content: &str, enrichments: &mut Vec<(String, String)>) -> (res: bool)
    ensures
        res == (regex_valid(MERMAID_BLOCK_PATTERN@) && windows_ok(
            content@,
            regex_captures(MERMAID_BLOCK_PATTERN@, content@),
        )),
        res ==> enrichments_view(final(enrichments)@) == mermaid_fold(
            content@,
            regex_captures(MERMAID_BLOCK_PATTERN@, content@),
            enrichments_view(old(enrichments)@),
        ),
        !res ==> final(enrichments)@ == old(enrichments)@,
{
    match regex_captures_group1(MERMAID_BLOCK_PATTERN, content) {
        Some(caps) => {
            if windows_are_ok(content, &caps) {
                record_mermaid_blocks(content, &caps, enrichments);
                true
            } else {
                false
            }
        },
        None => false,
    }
}


// ─── Laws of the enrichments ───────────────────────────────────

pub open spec fn is_prefix_of(a: Seq<(Seq<char>, Seq<char>)>, b: Seq<(Seq<char>, Seq<char>)>) -> bool {
    a.len() <= b.len() && b.subrange(0, a.len() as int) == a
}

pub open spec fn keys_distinct(m: Seq<(Seq<char>, Seq<char>)>) -> bool {
    forall|i: int, j: int| 0 <= i < j < m.len() ==> m[i].0 != m[j].0
}

proof fn lemma_insert_absent(m: Seq<(Seq<char>, Seq<char>)>, k: Seq<char>, v: Seq<char>)
    ensures
        is_prefix_of(m, insert_absent(m, k, v)),
        keys_distinct(m) ==> keys_distinct(insert_absent(m, k, v)),
{
    let r = insert_absent(m, k, v);
    assert(r.subrange(0, m.len() as int) =~= m);
}

proof fn lemma_prefix_trans(
    a: Seq<(Seq<char>, Seq<char>)>,
    b: Seq<(Seq<char>, Seq<char>)>,
    c: Seq<(Seq<char>, Seq<char>)>,
)
    requires
        is_prefix_of(a, b),
        is_prefix_of(b, c),
    ensures
        is_prefix_of(a, c),
{
    assert(c.subrange(0, a.len() as int) =~= b.subrange(0, a.len() as int));
}

proof fn lemma_add_diagram_files(m: Seq<(Seq<char>, Seq<char>)>, fs: Seq<Seq<char>>, d: Seq<char>)
    ensures
        is_prefix_of(m, add_diagram_files(m, fs, d)),
        keys_distinct(m) ==> keys_distinct(add_diagram_files(m, fs, d)),
    decreases fs.len(),
{
    if fs.len() == 0 {
        assert(m.subrange(0, m.len() as int) =~= m);
    } else {
        lemma_add_diagram_files(m, fs.drop_last(), d);
        let m1 = add_diagram_files(m, fs.drop_last(), d);
        lemma_insert_absent(m1, fs.last(), d);
        assert(m1.subrange(0, m1.len() as int) =~= m1);
        lemma_prefix_trans(m, m1, add_diagram_files(m, fs, d));
    }
}

proof fn lemma_add_title_words(m: Seq<(Seq<char>, Seq<char>)>, ws: Seq<Seq<char>>, t: Seq<char>)
    ensures
        is_prefix_of(m, add_title_words(m, ws, t)),
        keys_distinct(m) ==> keys_distinct(add_title_words(m, ws, t)),
    decreases ws.len(),
{
    if ws.len() == 0 {
        assert(m.subrange(0, m.len() as int) =~= m);
    } else {
        lemma_add_title_words(m, ws.drop_last(), t);
        let m1 = add_title_words(m, ws.drop_last(), t);
        lemma_insert_absent(m1, "*"@ + unicode_lowercase(ws.last()), t);
        assert(m1.subrange(0, m1.len() as int) =~= m1);
        lemma_prefix_trans(m, m1, add_title_words(m, ws, t));
    }
}

/// Mining never overwrites: every enrichment already recorded stays, in
/// place, and no key is recorded twice.
pub proof fn mining_keeps_first_description(
    content: Seq<char>,
    caps: Seq<(usize, Option<Seq<char>>)>,
    m: Seq<(Seq<char>, Seq<char>)>,
)
    ensures
        is_prefix_of(m, mermaid_fold(content, caps, m)),
        keys_distinct(m) ==> keys_distinct(mermaid_fold(content, caps, m)),
    decreases caps.len(),
{
    if caps.len() == 0 {
        assert(m.subrange(0, m.len() as int) =~= m);
    } else {
        mining_keeps_first_description(content, caps.drop_last(), m);
        let m0 = mermaid_fold(content, caps.drop_last(), m);
        let cap = caps.last();
        match cap.1 {
            None => {},
            Some(raw) => {
                let mermaid = unescape_spec(raw);
                let title = title_spec(mermaid);
                let files = file_paths_spec(window_text(content, cap.0 as int, 500));
                let desc = match title {
                    Some(t) => t,
                    None => diagram_type_spec(mermaid) + " diagram"@,
                };
                lemma_add_diagram_files(m0, files, desc);
                let m1 = add_diagram_files(m0, files, desc);
                lemma_prefix_trans(m, m0, m1);
                match title {
                    Some(t) => {
                        lemma_add_title_words(m1, words(t), t);
                        lemma_prefix_trans(m, m1, add_title_words(m1, words(t), t));
                    },
                    None => {},
                }
            },
        }
    }
}

/// The mentioned paths are distinct and none contains `http`.
pub proof fn collected_paths_are_distinct(caps: Seq<(usize, Option<Seq<char>>)>)
    ensures
        forall|i: int, j: int|
            0 <= i < j < collect_paths_spec(caps).len() ==> collect_paths_spec(caps)[i]
                != collect_paths_spec(caps)[j],
        forall|i: int|
            0 <= i < collect_paths_spec(caps).len() ==> !has_infix(
                #[trigger] collect_paths_spec(caps)[i],
                "http"@,
            ),
    decreases caps.len(),
{
    if caps.len() > 0 {
        collected_paths_are_distinct(caps.drop_last());
        let prev = collect_paths_spec(caps.drop_last());
        let cur = collect_paths_spec(caps);
        match caps.last().1 {
            Some(p) => {
                if !has_infix(p, "http"@) && !prev.contains(p) {
                    assert forall|i: int, j: int| 0 <= i < j < cur.len() implies cur[i] != cur[j] by {
                        if j == prev.len() {
                            assert(cur[i] == prev[i]);
                            if cur[i] == cur[j] {
                                assert(prev.contains(p));
                            }
                        } else {
                            assert(cur[i] == prev[i] && cur[j] == prev[j]);
                        }
                    }
                    assert forall|i: int| 0 <= i < cur.len() implies !has_infix(#[trigger] cur[i], "http"@) by {
                        if i < prev.len() {
                            assert(cur[i] == prev[i]);
                        }
                    }
                }
            },
            None => {},
        }
    }
}

} // verus!
