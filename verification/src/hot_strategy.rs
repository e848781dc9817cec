//! Hot payloads: what a hot file contributes to the `@M` section under each
//! strategy (full text, first lines, signatures, or a fixed note).
//!
//! The text of the file is handed in (`None` where it could not be read as
//! UTF-8 text).
use vstd::prelude::*;
use crate::text::{
    chars_of, eq_str, extension, extension_of, has_infix, has_prefix, join, lines, lines_of,
    push_chars, push_join, push_str, starts_with_str, contains_str, string_from, to_lowercase,
    trim, trim_chars, unicode_lowercase, views,
};
use crate::types::HotStrategy;

verus! {

// ─── Specification ─────────────────────────────────────────────

pub open spec fn unreadable() -> Seq<char> {
    "[unreadable]"@
}

pub open spec fn read_full_spec(content: Option<Seq<char>>) -> Seq<char> {
    match content {
        Some(t) => t,
        None => unreadable(),
    }
}

/// The first `n` lines joined by `\n`, marked when lines were left out.
pub open spec fn head_text(t: Seq<char>, n: nat) -> Seq<char> {
    let ls = lines_of(t);
    let taken = if n < ls.len() { ls.take(n as int) } else { ls };
    join(taken, "\n"@) + if taken.len() < ls.len() {
        "\n... [truncated]"@
    } else {
        seq![]
    }
}

pub open spec fn read_head_spec(content: Option<Seq<char>>, n: nat) -> Seq<char> {
    match content {
        Some(t) => head_text(t, n),
        None => unreadable(),
    }
}

pub open spec fn any_prefix(line: Seq<char>, prefixes: Seq<Seq<char>>) -> bool {
    exists|i: int| 0 <= i < prefixes.len() && has_prefix(line, prefixes[i])
}

/// The visibilities a Rust item may start with (the first is none).
pub open spec fn rust_visibilities() -> Seq<Seq<char>> {
    seq![""@, "pub "@, "pub(crate) "@, "pub(super) "@]
}

/// The keywords that open a Rust declaration after its visibility.
pub open spec fn rust_item_keywords() -> Seq<Seq<char>> {
    seq!["fn "@, "async fn "@, "struct "@, "enum "@, "trait "@, "mod "@, "type "@]
}

/// After its visibility, a Rust declaration opens with an item keyword, or
/// with `const` followed by `fn`.
pub open spec fn rust_item_start(r: Seq<char>) -> bool {
    any_prefix(r, rust_item_keywords()) || (has_prefix(r, "const "@) && has_prefix(
        r.subrange(6, r.len() as int),
        "fn "@,
    ))
}

/// A Rust declaration: an `impl` block, or a (possibly public, async or
/// const) function, a struct, enum, trait, module or type alias.
pub open spec fn is_rust_declaration(line: Seq<char>) -> bool {
    ||| has_prefix(line, "impl "@)
    ||| exists|v: int|
        0 <= v < rust_visibilities().len() && has_prefix(line, rust_visibilities()[v])
            && rust_item_start(line.subrange(rust_visibilities()[v].len() as int, line.len() as int))
}

pub open spec fn python_signature_prefixes() -> Seq<Seq<char>> {
    seq!["def "@, "async def "@, "class "@, "    def "@, "    async def "@]
}

pub open spec fn script_signature_prefixes() -> Seq<Seq<char>> {
    seq![
        "export "@, "function "@, "async function "@, "class "@, "interface "@, "type "@,
        "const "@,
    ]
}

pub open spec fn go_signature_prefixes() -> Seq<Seq<char>> {
    seq!["func "@, "type "@, "package "@]
}

pub open spec fn jvm_method_prefixes() -> Seq<Seq<char>> {
    seq!["public "@, "private "@, "protected "@, "fun "@]
}

/// Heuristic: does this (trimmed) line look like a declaration in a file
/// with this extension?
pub open spec fn is_signature_line_spec(line: Seq<char>, ext: Seq<char>) -> bool {
    if line.len() == 0 || has_prefix(line, "//"@) || has_prefix(line, "#"@) || has_prefix(
        line,
        "/*"@,
    ) {
        false
    } else if ext == "rs"@ {
        is_rust_declaration(line)
    } else if ext == "py"@ {
        any_prefix(line, python_signature_prefixes())
    } else if ext == "ts"@ || ext == "js"@ || ext == "tsx"@ || ext == "jsx"@ {
        any_prefix(line, script_signature_prefixes()) || has_infix(line, "=> {"@)
    } else if ext == "go"@ {
        any_prefix(line, go_signature_prefixes())
    } else if ext == "java"@ || ext == "kt"@ {
        has_infix(line, "class "@) || has_infix(line, "interface "@) || (has_infix(line, "("@)
            && any_prefix(line, jvm_method_prefixes()))
    } else {
        false
    }
}

/// The trimmed lines that look like declarations, in order.
pub open spec fn signature_lines(ls: Seq<Seq<char>>, ext: Seq<char>) -> Seq<Seq<char>>
    decreases ls.len(),
{
    if ls.len() == 0 {
        seq![]
    } else {
        let rest = signature_lines(ls.drop_last(), ext);
        let t = trim(ls.last());
        if is_signature_line_spec(t, ext) {
            rest.push(t)
        } else {
            rest
        }
    }
}

pub open spec fn extract_signatures_spec(abs_path: Seq<char>, content: Option<Seq<char>>) -> Seq<char> {
    match content {
        None => unreadable(),
        Some(t) => {
            let ext = unicode_lowercase(extension(abs_path));
            let sigs = signature_lines(lines_of(t), ext);
            if sigs.len() == 0 {
                head_text(t, 30)
            } else {
                join(sigs, "\n"@)
            }
        },
    }
}

/// The payload a strategy makes of a file.
pub open spec fn apply_strategy_spec(
    abs_path: Seq<char>,
    content: Option<Seq<char>>,
    strategy: HotStrategy,
) -> Seq<char> {
    match strategy {
        HotStrategy::Full => read_full_spec(content),
        HotStrategy::Head(n) => read_head_spec(content, n as nat),
        HotStrategy::Signature => extract_signatures_spec(abs_path, content),
        HotStrategy::Summary => "[summary pending]\n"@ + read_head_spec(content, 80),
        HotStrategy::Delta => "[delta: no previous compilation found]"@,
    }
}

pub open spec fn content_view(content: Option<String>) -> Option<Seq<char>> {
    match content {
        Some(s) => Some(s@),
        None => None,
    }
}

// ─── Implementation ────────────────────────────────────────────

/// Apply a hot strategy to a file and return the payload string.
pub fn apply_strategy(abs_path: &str, content: &Option<String>, strategy: &HotStrategy) -> (res: String)
    ensures
        res@ == apply_strategy_spec(abs_path@, content_view(*content), *strategy),
{
    match strategy {
        HotStrategy::Full => read_full(content),
        HotStrategy::Head(n) => read_head(content, *n),
        HotStrategy::Signature => extract_signatures(abs_path, content),
        HotStrategy::Summary => {
            // A summary would need a language model; the first lines stand in for it
            let head = read_head(content, 80);
            let mut out = String::from_str("[summary pending]\n");
            out.append(head.as_str());
            out
        },
        HotStrategy::Delta => {
            // A delta would need the previous compilation, which is never kept
            String::from_str("[delta: no previous compilation found]")
        },
    }
}

/// The entire file content.
pub fn read_full(content: &Option<String>) -> (res: String)
    ensures
        res@ == read_full_spec(content_view(*content)),
{
    match content {
        Some(t) => t.clone(),
        None => String::from_str("[unreadable]"),
    }
}

/// The first `n` lines of a text, marked when lines were left out.
pub fn head_of(t: &str, n: usize) -> (res: Vec<char>)
    ensures
        res@ == head_text(t@, n as nat),
{
    let tc = chars_of(t);
    let all = lines(&tc);
    let mut taken: Vec<Vec<char>> = Vec::new();
    let mut i: usize = 0;
    while i < n && i < all.len()
        invariant
            i <= all.len(),
            i <= n,
            views(taken@) == views(all@).take(i as int),
        decreases all.len() - i,
    {
        let mut line: Vec<char> = Vec::new();
        push_chars(&mut line, &all[i]);
        assert(line@ =~= all@[i as int]@);
        let ghost before = taken@;
        taken.push(line);
        assert(views(taken@) =~= views(before).push(line@));
        assert(views(all@).take(i + 1) =~= views(all@).take(i as int).push(all@[i as int]@));
        i += 1;
    }
    let ghost ls = lines_of(t@);
    let ghost taken_spec = if (n as nat) < ls.len() { ls.take(n as int) } else { ls };
    proof {
        assert(ls == views(all@));
        if n as nat >= ls.len() {
            assert(views(all@).take(i as int) =~= ls);
        }
        assert(views(taken@) == taken_spec);
        assert(taken.len() == taken_spec.len());
    }
    let truncated = taken.len() < all.len();
    let mut result: Vec<char> = Vec::new();
    push_join(&mut result, &taken, "\n");
    if truncated {
        push_str(&mut result, "\n... [truncated]");
    } else {
        assert(result@ + seq![] =~= result@);
    }
    result
}

/// Read the first N lines of a file.
pub fn read_head(content: &Option<String>, n: usize) -> (res: String)
    ensures
        res@ == read_head_spec(content_view(*content), n as nat),
{
    match content {
        Some(t) => {
            let h = head_of(t.as_str(), n);
            string_from(&h)
        },
        None => String::from_str("[unreadable]"),
    }
}

fn any_prefix_exec(line: &[char], prefixes: &[&str]) -> (res: bool)
    ensures
        res == any_prefix(line@, prefixes@.map_values(|p: &str| p@)),
{
    let ghost ps = prefixes@.map_values(|p: &str| p@);
    let mut i: usize = 0;
    while i < prefixes.len()
        invariant
            i <= prefixes.len(),
            ps == prefixes@.map_values(|p: &str| p@),
            forall|j: int| 0 <= j < i ==> !has_prefix(line@, ps[j]),
        decreases prefixes.len() - i,
    {
        if starts_with_str(line, prefixes[i]) {
            assert(has_prefix(line@, ps[i as int]));
            return true;
        }
        i += 1;
    }
    false
}

fn rust_item_start_exec(r: &[char]) -> (res: bool)
    ensures
        res == rust_item_start(r@),
{
    let ks: [&str; 7] = ["fn ", "async fn ", "struct ", "enum ", "trait ", "mod ", "type "];
    assert(ks@.map_values(|p: &str| p@) =~= rust_item_keywords());
    if any_prefix_exec(r, &ks) {
        return true;
    }
    if starts_with_str(r, "const ") {
        proof {
            reveal_strlit("const ");
        }
        let rest = crate::text::copy_range(r, 6, r.len());
        starts_with_str(&rest, "fn ")
    } else {
        false
    }
}

fn is_rust_declaration_exec(l: &[char]) -> (res: bool)
    ensures
        res == is_rust_declaration(l@),
{
    if starts_with_str(l, "impl ") {
        return true;
    }
    let vs: [&str; 4] = ["", "pub ", "pub(crate) ", "pub(super) "];
    let ghost vv = vs@.map_values(|p: &str| p@);
    assert(vv =~= rust_visibilities());
    let mut i: usize = 0;
    while i < 4
        invariant
            i <= 4,
            vv == vs@.map_values(|p: &str| p@),
            vv == rust_visibilities(),
            forall|j: int|
                0 <= j < i ==> !(has_prefix(l@, vv[j]) && rust_item_start(
                    l@.subrange(vv[j].len() as int, l@.len() as int),
                )),
        decreases 4 - i,
    {
        assert(vv[i as int] == vs[i as int]@);
        if starts_with_str(l, vs[i]) {
            let v = chars_of(vs[i]);
            let rest = crate::text::copy_range(l, v.len(), l.len());
            if rust_item_start_exec(&rest) {
                return true;
            }
        }
        i += 1;
    }
    false
}

/// Heuristic: does this line look like a function/struct/class declaration?
pub fn is_signature_line(line: &str, ext: &str) -> (res: bool)
    ensures
        res == is_signature_line_spec(line@, ext@),
{
    let l = chars_of(line);
    let e = chars_of(ext);
    if l.len() == 0 || starts_with_str(&l, "//") || starts_with_str(&l, "#") || starts_with_str(
        &l,
        "/*",
    ) {
        return false;
    }
    if eq_str(&e, "rs") {
        // Rust
        is_rust_declaration_exec(&l)
    } else if eq_str(&e, "py") {
        // Python
        let ps: [&str; 5] = ["def ", "async def ", "class ", "    def ", "    async def "];
        assert(ps@.map_values(|p: &str| p@) =~= python_signature_prefixes());
        any_prefix_exec(&l, &ps)
    } else if eq_str(&e, "ts") || eq_str(&e, "js") || eq_str(&e, "tsx") || eq_str(&e, "jsx") {
        // TypeScript / JavaScript
        let ps: [&str; 7] = [
            "export ", "function ", "async function ", "class ", "interface ", "type ", "const ",
        ];
        assert(ps@.map_values(|p: &str| p@) =~= script_signature_prefixes());
        any_prefix_exec(&l, &ps) || contains_str(&l, "=> {")
    } else if eq_str(&e, "go") {
        // Go
        let ps: [&str; 3] = ["func ", "type ", "package "];
        assert(ps@.map_values(|p: &str| p@) =~= go_signature_prefixes());
        any_prefix_exec(&l, &ps)
    } else if eq_str(&e, "java") || eq_str(&e, "kt") {
        // Java / Kotlin
        let ps: [&str; 4] = ["public ", "private ", "protected ", "fun "];
        assert(ps@.map_values(|p: &str| p@) =~= jvm_method_prefixes());
        contains_str(&l, "class ") || contains_str(&l, "interface ") || (contains_str(&l, "(")
            && any_prefix_exec(&l, &ps))
    } else {
        false
    }
}

/// Extract function/struct/class/trait signatures from source code.
/// This is a lightweight heuristic parser — not a full AST.
pub fn extract_signatures(abs_path: &str, content: &Option<String>) -> (res: String)
    ensures
        res@ == extract_signatures_spec(abs_path@, content_view(*content)),
{
    let t = match content {
        Some(t) => t,
        None => {
            return String::from_str("[unreadable]");
        },
    };
    let pc = chars_of(abs_path);
    let ext_raw = string_from(&extension_of(&pc));
    let ext = to_lowercase(ext_raw.as_str());
    let tc = chars_of(t.as_str());
    let all = lines(&tc);
    let ghost ls = views(all@);
    let mut signatures: Vec<Vec<char>> = Vec::new();
    let mut i: usize = 0;
    while i < all.len()
        invariant
            i <= all.len(),
            ls == views(all@),
            views(signatures@) == signature_lines(ls.take(i as int), ext@),
        decreases all.len() - i,
    {
        let trimmed = trim_chars(&all[i]);
        let trimmed_str = string_from(&trimmed);
        assert(ls.take(i + 1).drop_last() =~= ls.take(i as int));
        if is_signature_line(trimmed_str.as_str(), ext.as_str()) {
            let ghost before = signatures@;
            signatures.push(trimmed);
            assert(views(signatures@) =~= views(before).push(trimmed@));
        }
        i += 1;
    }
    assert(ls.take(all.len() as int) =~= ls);
    if signatures.len() == 0 {
        // Fallback to head if no signatures detected
        let h = head_of(t.as_str(), 30);
        return string_from(&h);
    }
    let mut out: Vec<char> = Vec::new();
    push_join(&mut out, &signatures, "\n");
    string_from(&out)
}

} // verus!
