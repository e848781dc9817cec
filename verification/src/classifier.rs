//! Classification of a file by its path into a resource type, and the short
//! semantic hint written beside it in the index.
use vstd::prelude::*;
use vstd::utf8::is_ascii_chars;
use crate::text::{
    ascii_lower, ascii_lower_char, chars_of, contains_str, ends_with_str, eq_str, extension,
    extension_of, file_name, file_name_of, has_infix, has_prefix, has_suffix, last_index, parent,
    parent_of, push_str, starts_with_str, string_from, to_lowercase, unicode_lowercase,
    lemma_last_index_bounds,
};
use crate::types::ResourceType;

verus! {

// ─── Specification ─────────────────────────────────────────────

/// The path lies under a directory named `d` (some component of it, other
/// than the last, is `d`); `d_slash` is `d` followed by `/`.
pub open spec fn under_dir(path: Seq<char>, d_slash: Seq<char>) -> bool {
    has_prefix(path, d_slash) || has_infix(path, "/"@ + d_slash)
}

/// Test files: files under a test directory, or named like tests.
pub open spec fn is_test_spec(path: Seq<char>, filename: Seq<char>) -> bool {
    ||| under_dir(path, "test/"@)
    ||| under_dir(path, "tests/"@)
    ||| under_dir(path, "__tests__/"@)
    ||| under_dir(path, "spec/"@)
    ||| has_infix(filename, "_test."@)
    ||| has_infix(filename, ".test."@)
    ||| has_infix(filename, "_spec."@)
    ||| has_infix(filename, ".spec."@)
    ||| has_prefix(filename, "test_"@)
}

pub open spec fn source_extensions() -> Seq<Seq<char>> {
    seq![
        "rs"@, "py"@, "js"@, "ts"@, "tsx"@, "jsx"@, "go"@, "java"@,
        "kt"@, "scala"@, "rb"@, "php"@, "c"@, "cpp"@, "h"@, "hpp"@,
        "cs"@, "swift"@, "m"@, "mm"@, "zig"@, "nim"@, "lua"@,
        "ex"@, "exs"@, "erl"@, "hrl"@, "clj"@, "cljs"@, "vue"@,
        "svelte"@, "dart"@, "r"@, "jl"@, "hs"@, "ml"@, "fs"@,
        "elm"@, "v"@, "sol"@, "move"@, "cairo"@,
    ]
}

pub open spec fn config_extensions() -> Seq<Seq<char>> {
    seq!["json"@, "yaml"@, "yml"@, "toml"@, "ini"@, "cfg"@, "conf"@]
}

pub open spec fn doc_extensions() -> Seq<Seq<char>> {
    seq!["md"@, "rst"@, "txt"@, "adoc"@, "org"@]
}

pub open spec fn binary_extensions() -> Seq<Seq<char>> {
    seq![
        "png"@, "jpg"@, "jpeg"@, "gif"@, "svg"@, "ico"@, "webp"@,
        "pdf"@, "zip"@, "tar"@, "gz"@, "bz2"@, "7z"@, "rar"@,
        "woff"@, "woff2"@, "ttf"@, "eot"@, "otf"@,
        "mp3"@, "mp4"@, "wav"@, "avi"@, "mov"@, "webm"@,
        "wasm"@, "so"@, "dll"@, "dylib"@, "exe"@, "bin"@,
        "db"@, "sqlite"@, "sqlite3"@,
    ]
}

pub open spec fn meta_file_names() -> Seq<Seq<char>> {
    seq![
        ".gitignore"@, ".gitattributes"@, ".editorconfig"@,
        ".prettierrc"@, ".eslintrc"@, ".eslintignore"@,
        "dockerfile"@, "docker-compose.yml"@, "docker-compose.yaml"@,
        "makefile"@, "justfile"@, "taskfile.yml"@,
        ".github"@, ".gitlab-ci.yml"@, ".circleci"@,
    ]
}

pub open spec fn entry_point_names() -> Seq<Seq<char>> {
    seq![
        "main.rs"@, "main.py"@, "main.go"@, "main.ts"@, "main.js"@,
        "index.ts"@, "index.js"@, "index.tsx"@, "index.jsx"@,
        "app.py"@, "app.ts"@, "app.js"@, "app.rs"@,
        "lib.rs"@, "mod.rs"@,
        "server.ts"@, "server.js"@, "server.py"@,
    ]
}

pub open spec fn is_source_spec(ext: Seq<char>) -> bool {
    source_extensions().contains(ext)
}

pub open spec fn is_config_spec(ext: Seq<char>, filename: Seq<char>) -> bool {
    ||| config_extensions().contains(ext)
    ||| filename == ".env"@
    ||| filename == ".env.example"@
    ||| has_suffix(filename, "rc"@)
    ||| has_prefix(filename, "."@) && (has_infix(filename, "config"@) || has_infix(filename, "rc"@))
}

pub open spec fn is_doc_spec(ext: Seq<char>, filename: Seq<char>) -> bool {
    ||| doc_extensions().contains(ext)
    ||| filename == "license"@
    ||| filename == "licence"@
    ||| has_prefix(filename, "readme"@)
    ||| has_prefix(filename, "changelog"@)
    ||| has_prefix(filename, "contributing"@)
}

pub open spec fn is_binary_spec(ext: Seq<char>) -> bool {
    binary_extensions().contains(ext)
}

pub open spec fn is_meta_spec(filename: Seq<char>, path: Seq<char>) -> bool {
    ||| meta_file_names().contains(filename)
    ||| under_dir(path, ".github/"@)
    ||| under_dir(path, ".circleci/"@)
    ||| under_dir(path, ".gitlab/"@)
}

/// The classification rules, in priority order, over the lowercased path,
/// extension and file name.  Project metadata (CI files, editor and git
/// settings) is recognised before the general configuration rule.
pub open spec fn classify_parts(path: Seq<char>, ext: Seq<char>, filename: Seq<char>) -> ResourceType {
    if is_test_spec(path, filename) {
        ResourceType::TEST
    } else if ext == "mmd"@ || ext == "mermaid"@ {
        ResourceType::MRM
    } else if is_source_spec(ext) {
        ResourceType::SRC
    } else if is_meta_spec(filename, path) {
        ResourceType::META
    } else if is_config_spec(ext, filename) {
        ResourceType::CFG
    } else if is_doc_spec(ext, filename) {
        ResourceType::DOC
    } else if is_binary_spec(ext) {
        ResourceType::BIN
    } else {
        ResourceType::OTHER
    }
}

/// The classification of an ASCII path, where lowercasing is the ASCII one.
pub open spec fn ascii_classify(path: Seq<char>) -> ResourceType {
    classify_parts(ascii_lower(path), ascii_lower(extension(path)), ascii_lower(file_name(path)))
}

/// The resource type of a path.
pub open spec fn classify_spec(path: Seq<char>) -> ResourceType {
    classify_parts(
        unicode_lowercase(path),
        unicode_lowercase(extension(path)),
        unicode_lowercase(file_name(path)),
    )
}

pub open spec fn is_entry_point_spec(path: Seq<char>) -> bool {
    entry_point_names().contains(unicode_lowercase(file_name(path)))
}

/// The file name of a path with its ASCII letters lowercased.
pub open spec fn ascii_file_name(path: Seq<char>) -> Seq<char> {
    ascii_lower(file_name(path))
}

pub open spec fn replace_char(s: Seq<char>, from: char, to: char) -> Seq<char> {
    s.map_values(|c: char| if c == from { to } else { c })
}

/// The hint before it is cut to 60 characters.  The file name is tested
/// lowercased.
pub open spec fn raw_hint(path: Seq<char>, t: ResourceType) -> Seq<char> {
    raw_hint_named(path, t, unicode_lowercase(file_name(path)))
}

/// The hint of a path before it is cut, given its lowercased file name.
pub open spec fn raw_hint_named(path: Seq<char>, t: ResourceType, filename: Seq<char>) -> Seq<char> {
    let parent = parent(path);
    match t {
        ResourceType::SRC => if entry_point_names().contains(filename) {
            "entry point"@
        } else if parent.len() > 0 {
            replace_char(parent, '/', '.') + " module"@
        } else {
            "source file"@
        },
        ResourceType::CFG => if has_infix(filename, "cargo"@) || has_infix(filename, "package"@) {
            "build config and dependencies"@
        } else if has_infix(filename, "tsconfig"@) || has_infix(filename, "jest"@) {
            "toolchain config"@
        } else {
            "configuration"@
        },
        ResourceType::DOC => if has_prefix(filename, "readme"@) {
            "project overview"@
        } else if has_infix(filename, "changelog"@) {
            "change history"@
        } else if has_infix(filename, "contributing"@) {
            "contribution guide"@
        } else {
            "documentation"@
        },
        ResourceType::TEST => "test suite"@,
        ResourceType::MRM => "architecture/flow diagram"@,
        ResourceType::BIN => "binary asset"@,
        ResourceType::META => "project metadata"@,
        ResourceType::OTHER => "project file"@,
    }
}

/// The hint: the raw hint, or its first 57 characters and `...` when it is
/// longer than 60 characters.
pub open spec fn hint_spec(path: Seq<char>, t: ResourceType) -> Seq<char> {
    cut_hint(raw_hint(path, t))
}

/// A hint longer than 60 characters becomes its first 57 and `...`.
pub open spec fn cut_hint(h: Seq<char>) -> Seq<char> {
    if h.len() > 60 {
        h.take(57) + "..."@
    } else {
        h
    }
}

/// The hint of an ASCII path, where lowercasing is the ASCII one.
pub open spec fn ascii_hint(path: Seq<char>, t: ResourceType) -> Seq<char> {
    cut_hint(raw_hint_named(path, t, ascii_file_name(path)))
}

// ─── Classification ────────────────────────────────────────────

/// Classify a file into a ResourceType based on its path and extension.
/// On an ASCII path lowercasing is the ASCII one (`ascii_classify`).
pub fn classify(path: &str) -> (res: ResourceType)
    ensures
        res == classify_spec(path@),
        is_ascii_chars(path@) ==> res == ascii_classify(path@),
{
    let pc = chars_of(path);
    let path_str = to_lowercase(path);
    let ext_raw = string_from(&extension_of(&pc));
    let ext = to_lowercase(ext_raw.as_str());
    let name_raw = string_from(&file_name_of(&pc));
    let filename = to_lowercase(name_raw.as_str());
    proof {
        lemma_path_parts_ascii(path@);
    }
    classify_lowered(path_str.as_str(), ext.as_str(), filename.as_str())
}

/// The classification rules applied to an already lowercased path, extension
/// and file name.
pub fn classify_lowered(path_str: &str, ext: &str, filename: &str) -> (res: ResourceType)
    ensures
        res == classify_parts(path_str@, ext@, filename@),
{
    // Test files — check before SRC since test files are also source
    if is_test(path_str, filename) {
        return ResourceType::TEST;
    }
    let e = chars_of(ext);
    // Mermaid diagrams
    if eq_str(&e, "mmd") || eq_str(&e, "mermaid") {
        return ResourceType::MRM;
    }
    // Source code
    if is_source(ext) {
        return ResourceType::SRC;
    }
    // Meta files (before configuration: CI files and dotfiles are metadata)
    if is_meta(filename, path_str) {
        return ResourceType::META;
    }
    // Configuration
    if is_config(ext, filename) {
        return ResourceType::CFG;
    }
    // Documentation
    if is_doc(ext, filename) {
        return ResourceType::DOC;
    }
    // Binary / asset files
    if is_binary(ext) {
        return ResourceType::BIN;
    }
    ResourceType::OTHER
}

/// Whether `x` is one of `list`.
pub fn in_list(x: &[char], list: &[&str]) -> (res: bool)
    ensures
        res == list@.map_values(|s: &str| s@).contains(x@),
{
    let ghost views = list@.map_values(|s: &str| s@);
    let mut i: usize = 0;
    while i < list.len()
        invariant
            i <= list.len(),
            views == list@.map_values(|s: &str| s@),
            forall|k: int| 0 <= k < i ==> views[k] != x@,
        decreases list.len() - i,
    {
        if eq_str(x, list[i]) {
            assert(views[i as int] == x@);
            return true;
        }
        i += 1;
    }
    false
}

/// Check if a file is an entry point.
pub fn is_entry_point(path: &str) -> (res: bool)
    ensures
        res == is_entry_point_spec(path@),
        is_ascii_chars(path@) ==> res == entry_point_names().contains(ascii_file_name(path@)),
{
    let pc = chars_of(path);
    let name_raw = string_from(&file_name_of(&pc));
    proof {
        lemma_path_parts_ascii(path@);
    }
    let filename = to_lowercase(name_raw.as_str());
    let f = chars_of(filename.as_str());
    let list: [&str; 18] = [
        "main.rs", "main.py", "main.go", "main.ts", "main.js",
        "index.ts", "index.js", "index.tsx", "index.jsx",
        "app.py", "app.ts", "app.js", "app.rs",
        "lib.rs", "mod.rs",
        "server.ts", "server.js", "server.py",
    ];
    assert(list@.map_values(|s: &str| s@) =~= entry_point_names());
    in_list(&f, &list)
}

fn under_dir_exec(path: &[char], d_slash: &str) -> (res: bool)
    ensures
        res == under_dir(path@, d_slash@),
{
    let mut sd: Vec<char> = Vec::new();
    sd.push('/');
    push_str(&mut sd, d_slash);
    proof {
        reveal_strlit("/");
        assert(sd@ =~= "/"@ + d_slash@);
    }
    starts_with_str(path, d_slash) || crate::text::contains_chars(path, &sd)
}

pub fn is_test(path: &str, filename: &str) -> (res: bool)
    ensures
        res == is_test_spec(path@, filename@),
{
    let p = chars_of(path);
    let f = chars_of(filename);
    under_dir_exec(&p, "test/") || under_dir_exec(&p, "tests/") || under_dir_exec(&p, "__tests__/")
        || under_dir_exec(&p, "spec/") || contains_str(&f, "_test.") || contains_str(&f, ".test.")
        || contains_str(&f, "_spec.") || contains_str(&f, ".spec.") || starts_with_str(&f, "test_")
}

pub fn is_source(ext: &str) -> (res: bool)
    ensures
        res == is_source_spec(ext@),
{
    let e = chars_of(ext);
    let list: [&str; 42] = [
        "rs", "py", "js", "ts", "tsx", "jsx", "go", "java",
        "kt", "scala", "rb", "php", "c", "cpp", "h", "hpp",
        "cs", "swift", "m", "mm", "zig", "nim", "lua",
        "ex", "exs", "erl", "hrl", "clj", "cljs", "vue",
        "svelte", "dart", "r", "jl", "hs", "ml", "fs",
        "elm", "v", "sol", "move", "cairo",
    ];
    assert(list@.map_values(|s: &str| s@) =~= source_extensions());
    in_list(&e, &list)
}

pub fn is_config(ext: &str, filename: &str) -> (res: bool)
    ensures
        res == is_config_spec(ext@, filename@),
{
    let e = chars_of(ext);
    let f = chars_of(filename);
    let list: [&str; 7] = ["json", "yaml", "yml", "toml", "ini", "cfg", "conf"];
    assert(list@.map_values(|s: &str| s@) =~= config_extensions());
    in_list(&e, &list) || eq_str(&f, ".env") || eq_str(&f, ".env.example") || ends_with_str(
        &f,
        "rc",
    ) || starts_with_str(&f, ".") && (contains_str(&f, "config") || contains_str(&f, "rc"))
}

pub fn is_doc(ext: &str, filename: &str) -> (res: bool)
    ensures
        res == is_doc_spec(ext@, filename@),
{
    let e = chars_of(ext);
    let f = chars_of(filename);
    let list: [&str; 5] = ["md", "rst", "txt", "adoc", "org"];
    assert(list@.map_values(|s: &str| s@) =~= doc_extensions());
    in_list(&e, &list) || eq_str(&f, "license") || eq_str(&f, "licence") || starts_with_str(
        &f,
        "readme",
    ) || starts_with_str(&f, "changelog") || starts_with_str(&f, "contributing")
}

pub fn is_binary(ext: &str) -> (res: bool)
    ensures
        res == is_binary_spec(ext@),
{
    let e = chars_of(ext);
    let list: [&str; 34] = [
        "png", "jpg", "jpeg", "gif", "svg", "ico", "webp",
        "pdf", "zip", "tar", "gz", "bz2", "7z", "rar",
        "woff", "woff2", "ttf", "eot", "otf",
        "mp3", "mp4", "wav", "avi", "mov", "webm",
        "wasm", "so", "dll", "dylib", "exe", "bin",
        "db", "sqlite", "sqlite3",
    ];
    assert(list@.map_values(|s: &str| s@) =~= binary_extensions());
    in_list(&e, &list)
}

pub fn is_meta(filename: &str, path: &str) -> (res: bool)
    ensures
        res == is_meta_spec(filename@, path@),
{
    let f = chars_of(filename);
    let p = chars_of(path);
    let list: [&str; 15] = [
        ".gitignore", ".gitattributes", ".editorconfig",
        ".prettierrc", ".eslintrc", ".eslintignore",
        "dockerfile", "docker-compose.yml", "docker-compose.yaml",
        "makefile", "justfile", "taskfile.yml",
        ".github", ".gitlab-ci.yml", ".circleci",
    ];
    assert(list@.map_values(|s: &str| s@) =~= meta_file_names());
    in_list(&f, &list) || under_dir_exec(&p, ".github/") || under_dir_exec(&p, ".circleci/")
        || under_dir_exec(&p, ".gitlab/")
}


// ─── Hints ─────────────────────────────────────────────────────

/// `s` with every `from` replaced by `to`.
pub fn replace_char_exec(s: &[char], from: char, to: char) -> (res: Vec<char>)
    ensures
        res@ == replace_char(s@, from, to),
{
    let mut res: Vec<char> = Vec::new();
    let mut i: usize = 0;
    while i < s.len()
        invariant
            i <= s.len(),
            res@ == replace_char(s@.take(i as int), from, to),
        decreases s.len() - i,
    {
        let c = s[i];
        res.push(if c == from { to } else { c });
        assert(replace_char(s@.take(i + 1), from, to) =~= replace_char(s@.take(i as int), from, to).push(
            if c == from { to } else { c },
        ));
        i += 1;
    }
    assert(s@.take(s.len() as int) =~= s@);
    res
}

/// The hint before it is cut.
pub fn raw_hint_exec(path: &str, resource_type: &ResourceType) -> (res: String)
    ensures
        res@ == raw_hint(path@, *resource_type),
        is_ascii_chars(path@) ==> res@ == raw_hint_named(path@, *resource_type, ascii_file_name(path@)),
{
    let pc = chars_of(path);
    let name_raw = string_from(&file_name_of(&pc));
    proof {
        lemma_path_parts_ascii(path@);
    }
    let name_low = to_lowercase(name_raw.as_str());
    let filename = chars_of(name_low.as_str());
    let parent = parent_of(&pc);
    match resource_type {
        ResourceType::SRC => {
            if is_entry_point(path) {
                String::from_str("entry point")
            } else if parent.len() > 0 {
                let mut h = replace_char_exec(&parent, '/', '.');
                push_str(&mut h, " module");
                string_from(&h)
            } else {
                String::from_str("source file")
            }
        },
        ResourceType::CFG => {
            if contains_str(&filename, "cargo") || contains_str(&filename, "package") {
                String::from_str("build config and dependencies")
            } else if contains_str(&filename, "tsconfig") || contains_str(&filename, "jest") {
                String::from_str("toolchain config")
            } else {
                String::from_str("configuration")
            }
        },
        ResourceType::DOC => {
            if starts_with_str(&filename, "readme") {
                String::from_str("project overview")
            } else if contains_str(&filename, "changelog") {
                String::from_str("change history")
            } else if contains_str(&filename, "contributing") {
                String::from_str("contribution guide")
            } else {
                String::from_str("documentation")
            }
        },
        ResourceType::TEST => String::from_str("test suite"),
        ResourceType::MRM => String::from_str("architecture/flow diagram"),
        ResourceType::BIN => String::from_str("binary asset"),
        ResourceType::META => String::from_str("project metadata"),
        ResourceType::OTHER => String::from_str("project file"),
    }
}

/// Generate a short semantic hint for a resource: at most 60 characters, cut
/// to 57 characters and `...` when longer.
pub fn generate_hint(path: &str, resource_type: &ResourceType) -> (res: String)
    ensures
        res@ == hint_spec(path@, *resource_type),
        is_ascii_chars(path@) ==> res@ == ascii_hint(path@, *resource_type),
{
    let hint = raw_hint_exec(path, resource_type);
    let h = chars_of(hint.as_str());
    // Truncate to 60 chars
    if h.len() > 60 {
        let mut out = crate::text::copy_range(&h, 0, 57);
        push_str(&mut out, "...");
        assert(out@ =~= h@.take(57) + "..."@);
        string_from(&out)
    } else {
        hint
    }
}

/// Every hint fits in 60 characters.
pub proof fn hint_fits_sixty_chars(path: Seq<char>, t: ResourceType)
    ensures
        hint_spec(path, t).len() <= 60,
{
    reveal_strlit("...");
}

/// Test files are classified as tests even when they are also source files:
/// the test rule comes before every other.
pub proof fn tests_take_priority(path: Seq<char>, ext: Seq<char>, filename: Seq<char>)
    requires
        is_test_spec(path, filename),
    ensures
        classify_parts(path, ext, filename) == ResourceType::TEST,
{
}


// ─── Case of ASCII letters ─────────────────────────────────────

pub proof fn lemma_path_parts_ascii(p: Seq<char>)
    ensures
        is_ascii_chars(p) ==> is_ascii_chars(file_name(p)) && is_ascii_chars(extension(p)),
{
    if is_ascii_chars(p) {
        lemma_last_index_bounds(p, '/');
        let k = last_index(p, '/') + 1;
        let f = file_name(p);
        assert forall|i: int| 0 <= i < f.len() implies '\0' <= #[trigger] f[i] <= '\u{7f}' by {
            assert(f[i] == p[i + k]);
        }
        lemma_last_index_bounds(f, '.');
        let d = last_index(f, '.');
        if d > 0 {
            let e = extension(p);
            assert forall|i: int| 0 <= i < e.len() implies '\0' <= #[trigger] e[i] <= '\u{7f}' by {
                assert(e[i] == f[i + d + 1]);
            }
        } else {
            assert(extension(p) =~= Seq::<char>::empty());
        }
    }
}

/// Lowercasing ASCII letters keeps `/` and `.` where they are.
proof fn lemma_ascii_lower_last_index(s: Seq<char>, c: char)
    requires
        c == '/' || c == '.',
    ensures
        last_index(ascii_lower(s), c) == last_index(s, c),
    decreases s.len(),
{
    if s.len() > 0 {
        let x = s.last();
        assert(ascii_lower(s).last() == ascii_lower_char(x));
        if 'A' <= x && x <= 'Z' {
            let v = (x as u32) + 32;
            assert(97 <= v <= 122);
            assert(ascii_lower_char(x) as u32 == v);
        }
        assert(ascii_lower(s).drop_last() =~= ascii_lower(s.drop_last()));
        lemma_ascii_lower_last_index(s.drop_last(), c);
    }
}

proof fn lemma_ascii_lower_parts(s: Seq<char>)
    ensures
        ascii_lower(file_name(s)) == file_name(ascii_lower(s)),
        ascii_lower(extension(s)) == extension(ascii_lower(s)),
{
    lemma_ascii_lower_last_index(s, '/');
    lemma_last_index_bounds(s, '/');
    let f = file_name(s);
    assert(ascii_lower(f) =~= file_name(ascii_lower(s)));
    lemma_ascii_lower_last_index(f, '.');
    lemma_last_index_bounds(f, '.');
    let d = last_index(f, '.');
    if d > 0 {
        assert(ascii_lower(extension(s)) =~= extension(ascii_lower(s)));
    } else {
        assert(ascii_lower(extension(s)) =~= extension(ascii_lower(s)));
    }
}

/// The case of ASCII letters never changes the type of an ASCII path: two
/// such paths that differ only in case are classified alike.
pub proof fn case_never_changes_type(p: Seq<char>, q: Seq<char>)
    requires
        is_ascii_chars(p),
        is_ascii_chars(q),
        ascii_lower(p) == ascii_lower(q),
    ensures
        ascii_classify(p) == ascii_classify(q),
{
    lemma_ascii_lower_parts(p);
    lemma_ascii_lower_parts(q);
}

} // verus!
