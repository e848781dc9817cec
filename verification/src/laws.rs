//! Laws of the compiler, each stated over the inputs and results of an
//! operation in terms that do not depend on how the operation is written:
//! counts as sizes of filtered lists, policies and rules as the literal names
//! and sizes they are decided by.
use vstd::prelude::*;
use crate::classifier::{
    binary_extensions, classify_parts, config_extensions, doc_extensions, is_config_spec,
    is_doc_spec, is_meta_spec, raw_hint_named, cut_hint, entry_point_names,
    is_test_spec, meta_file_names, source_extensions, under_dir,
};
use crate::emitter::{count_group, count_type, entry_texts, header_text};
use crate::partitioner::PartitionResult;
use crate::session_miner::{replace_escape, unescape_spec};
use crate::scanner::should_ignore_spec;
use crate::hot_strategy::{
    go_signature_prefixes, is_rust_declaration, is_signature_line_spec, python_signature_prefixes,
    rust_item_keywords, rust_item_start, rust_visibilities, script_signature_prefixes,
};
use crate::partitioner::{hot_strategy_spec, load_when_named};
use crate::session_miner::{add_diagram_files, add_title_words, byte_len, has_key};
use crate::text::{dec, parent, has_infix, has_prefix, has_suffix, unicode_lowercase};
use crate::types::{CompilerConfig, HotStrategy, LoadWhen, Resource, ResourceType};

verus! {

// ─── Counts in the architecture summary ────────────────────────

/// The resource belongs to the group `gid`.
pub open spec fn in_group(gid: Seq<char>) -> spec_fn(Resource) -> bool {
    |r: Resource| r.group_id@ == gid
}

/// The resource has the type `t`.
pub open spec fn of_type(t: ResourceType) -> spec_fn(Resource) -> bool {
    |r: Resource| r.resource_type == t
}

/// The number written for a group is the number of resources in it.
pub proof fn group_count_is_its_members(rs: Seq<Resource>, gid: Seq<char>)
    ensures
        count_group(rs, gid) == rs.filter(in_group(gid)).len(),
    decreases rs.len(),
{
    reveal(Seq::filter);
    if rs.len() > 0 {
        group_count_is_its_members(rs.drop_last(), gid);
        rs.drop_last().lemma_filter_len_push(in_group(gid), rs.last());
        assert(rs.drop_last().push(rs.last()) =~= rs);
    }
}

/// The number written for a type is the number of resources of that type.
pub proof fn type_count_is_its_members(rs: Seq<Resource>, t: ResourceType)
    ensures
        count_type(rs, t) == rs.filter(of_type(t)).len(),
    decreases rs.len(),
{
    reveal(Seq::filter);
    if rs.len() > 0 {
        type_count_is_its_members(rs.drop_last(), t);
        rs.drop_last().lemma_filter_len_push(of_type(t), rs.last());
        assert(rs.drop_last().push(rs.last()) =~= rs);
    }
}

// ─── Load policy ───────────────────────────────────────────────

/// The load policy of a file of type `t`, `size` bytes and lowercased file
/// name `f`: binaries never; other files over 50 000 bytes on request;
/// configuration under 4096 bytes, and any readme, always; entry points on
/// edit; metadata with its group; everything else on request.
pub proof fn load_policy_rules(t: ResourceType, size: u64, f: Seq<char>)
    ensures
        t == ResourceType::BIN ==> load_when_named(t, size, f) == LoadWhen::Never,
        t != ResourceType::BIN && size > 50_000 ==> load_when_named(t, size, f) == LoadWhen::OnRequest,
        t == ResourceType::CFG && size < 4096 ==> load_when_named(t, size, f) == LoadWhen::Always,
        t == ResourceType::CFG && 4096 <= size ==> load_when_named(t, size, f) == LoadWhen::OnRequest,
        t == ResourceType::DOC && size <= 50_000 && has_prefix(f, "readme"@) ==> load_when_named(
            t,
            size,
            f,
        ) == LoadWhen::Always,
        t == ResourceType::DOC && !has_prefix(f, "readme"@) ==> load_when_named(t, size, f)
            == LoadWhen::OnRequest,
        t == ResourceType::SRC && size <= 50_000 && seq![
            "main.rs"@, "main.py"@, "main.go"@, "main.ts"@, "main.js"@,
            "index.ts"@, "index.js"@, "index.tsx"@, "index.jsx"@,
            "app.py"@, "app.ts"@, "app.js"@, "app.rs"@,
            "lib.rs"@, "mod.rs"@,
            "server.ts"@, "server.js"@, "server.py"@,
        ].contains(f) ==> load_when_named(t, size, f) == LoadWhen::OnEdit,
        t == ResourceType::META && size <= 50_000 ==> load_when_named(t, size, f) == LoadWhen::OnGroup,
        (t == ResourceType::TEST || t == ResourceType::MRM || t == ResourceType::OTHER)
            ==> load_when_named(t, size, f) == LoadWhen::OnRequest,
{
}

// ─── Hot payload strategy ──────────────────────────────────────

/// Files up to `max_hot_file_size` are hot in full.  Above it, source files
/// up to `summary_threshold` give their signatures and larger ones their first
/// 50 lines; documents up to the threshold are summarized and larger ones give
/// their first 100 lines; every other file gives its first 30 lines.
pub proof fn hot_strategy_rules(t: ResourceType, size: u64, c: CompilerConfig)
    ensures
        size <= c.max_hot_file_size ==> hot_strategy_spec(t, size, c) == HotStrategy::Full,
        size > c.max_hot_file_size && t == ResourceType::SRC && size <= c.summary_threshold
            ==> hot_strategy_spec(t, size, c) == HotStrategy::Signature,
        size > c.max_hot_file_size && t == ResourceType::SRC && size > c.summary_threshold
            ==> hot_strategy_spec(t, size, c) == HotStrategy::Head(50),
        size > c.max_hot_file_size && t == ResourceType::DOC && size <= c.summary_threshold
            ==> hot_strategy_spec(t, size, c) == HotStrategy::Summary,
        size > c.max_hot_file_size && t == ResourceType::DOC && size > c.summary_threshold
            ==> hot_strategy_spec(t, size, c) == HotStrategy::Head(100),
        size > c.max_hot_file_size && t != ResourceType::SRC && t != ResourceType::DOC
            ==> hot_strategy_spec(t, size, c) == HotStrategy::Head(30),
{
}

// ─── Session mining ────────────────────────────────────────────

/// A mentioned `.mermaid` or `.mmd` file whose key is new gets the block's
/// description; any other mentioned path, or a key already recorded, leaves
/// the enrichments as they are.
pub proof fn diagram_files_get_the_description(
    m: Seq<(Seq<char>, Seq<char>)>,
    f: Seq<char>,
    d: Seq<char>,
)
    ensures
        (has_suffix(f, ".mermaid"@) || has_suffix(f, ".mmd"@)) && !has_key(m, f)
            ==> add_diagram_files(m, seq![f], d) == m.push((f, d)),
        !(has_suffix(f, ".mermaid"@) || has_suffix(f, ".mmd"@)) ==> add_diagram_files(m, seq![f], d)
            == m,
        has_key(m, f) ==> add_diagram_files(m, seq![f], d) == m,
{
    assert(seq![f].drop_last() =~= Seq::<Seq<char>>::empty());
    assert(add_diagram_files(m, Seq::<Seq<char>>::empty(), d) == m);
    assert(seq![f].last() == f);
}

/// A title word of more than 3 bytes, lowercased and marked with `*`, gets
/// the title when that key is new; a shorter word adds nothing.
pub proof fn long_title_words_get_the_title(
    m: Seq<(Seq<char>, Seq<char>)>,
    w: Seq<char>,
    t: Seq<char>,
)
    ensures
        byte_len(w) > 3 && unicode_lowercase(w).len() > 0 && !has_key(m, "*"@ + unicode_lowercase(w))
            ==> add_title_words(m, seq![w], t) == m.push(("*"@ + unicode_lowercase(w), t)),
        byte_len(w) <= 3 ==> add_title_words(m, seq![w], t) == m,
{
    assert(seq![w].drop_last() =~= Seq::<Seq<char>>::empty());
    assert(add_title_words(m, Seq::<Seq<char>>::empty(), t) == m);
    assert(seq![w].last() == w);
}


// ─── Signature lines ───────────────────────────────────────────

proof fn lemma_prefix_split(a: Seq<char>, x: Seq<char>, y: Seq<char>)
    requires
        has_prefix(a, x + y),
    ensures
        has_prefix(a, x),
        has_prefix(a.subrange(x.len() as int, a.len() as int), y),
{
    assert(a.subrange(0, x.len() as int) =~= (x + y).subrange(0, x.len() as int));
    assert((x + y).subrange(0, x.len() as int) =~= x);
    let r = a.subrange(x.len() as int, a.len() as int);
    assert(r.subrange(0, y.len() as int) =~= (x + y).subrange(x.len() as int, (x + y).len() as int));
    assert((x + y).subrange(x.len() as int, (x + y).len() as int) =~= y);
}

/// The visibilities a Rust declaration may start with.
pub open spec fn rust_visibility_words() -> Seq<Seq<char>> {
    seq![""@, "pub "@, "pub(crate) "@, "pub(super) "@]
}

/// The keywords that open a Rust function, type, trait or module.
pub open spec fn rust_declaration_words() -> Seq<Seq<char>> {
    seq![
        "fn "@, "async fn "@, "const "@ + "fn "@, "struct "@, "enum "@, "trait "@, "mod "@,
        "type "@,
    ]
}

/// In a Rust file, a line that opens with a visibility (or none) and then
/// `fn`, `async fn`, `const fn`, `struct`, `enum`, `trait`, `mod` or `type`,
/// or that opens with `impl`, is a signature line.
pub proof fn rust_declarations_are_signatures(l: Seq<char>, i: int, j: int)
    requires
        0 <= i < 4,
        0 <= j < 8,
        has_prefix(l, rust_visibility_words()[i] + rust_declaration_words()[j]) || has_prefix(
            l,
            "impl "@,
        ),
    ensures
        is_signature_line_spec(l, "rs"@),
{
    reveal_strlit("");
    reveal_strlit("pub ");
    reveal_strlit("pub(crate) ");
    reveal_strlit("pub(super) ");
    reveal_strlit("fn ");
    reveal_strlit("async fn ");
    reveal_strlit("const ");
    reveal_strlit("struct ");
    reveal_strlit("enum ");
    reveal_strlit("trait ");
    reveal_strlit("mod ");
    reveal_strlit("type ");
    reveal_strlit("impl ");
    reveal_strlit("//");
    reveal_strlit("#");
    reveal_strlit("/*");
    reveal_strlit("rs");
    let v = rust_visibility_words()[i];
    let k = rust_declaration_words()[j];
    assert(rust_visibilities() == rust_visibility_words());
    if has_prefix(l, "impl "@) {
        assert(l.subrange(0, 5) == "impl "@);
        assert(l.subrange(0, 5)[0] == l[0]);
        assert(l[0] == 'i');
        if has_prefix(l, "//"@) {
            assert(l.subrange(0, 2)[0] == l[0]);
        }
        if has_prefix(l, "/*"@) {
            assert(l.subrange(0, 2)[0] == l[0]);
        }
        if has_prefix(l, "#"@) {
            assert(l.subrange(0, 1)[0] == l[0]);
        }
    } else {
        lemma_prefix_split(l, v, k);
        let r = l.subrange(v.len() as int, l.len() as int);
        assert(l.len() >= (v + k).len());
        assert(l[0] == (v + k)[0]);
        assert((v + k)[0] != '/' && (v + k)[0] != '#');
        if j == 2 {
            lemma_prefix_split(r, "const "@, "fn "@);
            assert(rust_item_start(r));
        } else {
            let jj = if j < 2 { j } else { j - 1 };
            assert(rust_item_keywords()[jj] == k);
            assert(rust_item_start(r));
        }
        assert(is_rust_declaration(l));
    }
}


proof fn lemma_not_comment(l: Seq<char>, p: Seq<char>)
    requires
        has_prefix(l, p),
        p.len() > 0,
        p[0] != '/',
        p[0] != '#',
    ensures
        l.len() > 0,
        !has_prefix(l, "//"@),
        !has_prefix(l, "#"@),
        !has_prefix(l, "/*"@),
{
    reveal_strlit("//");
    reveal_strlit("#");
    reveal_strlit("/*");
    assert(l.subrange(0, p.len() as int)[0] == l[0]);
    if has_prefix(l, "//"@) || has_prefix(l, "/*"@) {
        assert(l.subrange(0, 2)[0] == l[0]);
    }
    if has_prefix(l, "#"@) {
        assert(l.subrange(0, 1)[0] == l[0]);
    }
}

/// Empty lines and lines opening a comment (`//`, `#`, `/*`) are never
/// signature lines, whatever the language.
pub proof fn comments_are_not_signatures(l: Seq<char>, ext: Seq<char>)
    requires
        l.len() == 0 || has_prefix(l, "//"@) || has_prefix(l, "#"@) || has_prefix(l, "/*"@),
    ensures
        !is_signature_line_spec(l, ext),
{
}

/// Declarations of Python, TypeScript/JavaScript, Go and Java/Kotlin are
/// signature lines: in Python `def`, `async def` and `class` (also indented
/// by four spaces for methods); in scripts `export`, `function`, `async
/// function`, `class`, `interface`, `type`, `const` and arrow functions; in Go
/// `func`, `type` and `package`; in Java and Kotlin any line naming a class or
/// interface.
pub proof fn other_declarations_are_signatures(l: Seq<char>, k: int)
    ensures
        0 <= k < 5 && has_prefix(
            l,
            seq!["def "@, "async def "@, "class "@, "    def "@, "    async def "@][k],
        ) ==> is_signature_line_spec(l, "py"@),
        0 <= k < 7 && has_prefix(
            l,
            seq![
                "export "@, "function "@, "async function "@, "class "@, "interface "@, "type "@,
                "const "@,
            ][k],
        ) ==> is_signature_line_spec(l, "ts"@) && is_signature_line_spec(l, "js"@)
            && is_signature_line_spec(l, "tsx"@) && is_signature_line_spec(l, "jsx"@),
        0 <= k < 3 && has_prefix(l, seq!["func "@, "type "@, "package "@][k])
            ==> is_signature_line_spec(l, "go"@),
        l.len() > 0 && l[0] != '/' && l[0] != '#' && (has_infix(l, "class "@) || has_infix(
            l,
            "interface "@,
        )) ==> is_signature_line_spec(l, "java"@) && is_signature_line_spec(l, "kt"@),
{
    reveal_strlit("def ");
    reveal_strlit("async def ");
    reveal_strlit("class ");
    reveal_strlit("    def ");
    reveal_strlit("    async def ");
    reveal_strlit("export ");
    reveal_strlit("function ");
    reveal_strlit("async function ");
    reveal_strlit("interface ");
    reveal_strlit("type ");
    reveal_strlit("const ");
    reveal_strlit("func ");
    reveal_strlit("package ");
    reveal_strlit("py");
    reveal_strlit("ts");
    reveal_strlit("js");
    reveal_strlit("tsx");
    reveal_strlit("jsx");
    reveal_strlit("go");
    reveal_strlit("java");
    reveal_strlit("kt");
    reveal_strlit("rs");
    let py = seq!["def "@, "async def "@, "class "@, "    def "@, "    async def "@];
    let sc = seq![
        "export "@, "function "@, "async function "@, "class "@, "interface "@, "type "@,
        "const "@,
    ];
    let go = seq!["func "@, "type "@, "package "@];
    assert(python_signature_prefixes() =~= py);
    assert(script_signature_prefixes() =~= sc);
    assert(go_signature_prefixes() =~= go);
    if 0 <= k < 5 && has_prefix(l, py[k]) {
        lemma_not_comment(l, py[k]);
        assert(has_prefix(l, python_signature_prefixes()[k]));
        assert(crate::hot_strategy::any_prefix(l, python_signature_prefixes()));
        assert("py"@[0] != "rs"@[0]);
    }
    if 0 <= k < 7 && has_prefix(l, sc[k]) {
        lemma_not_comment(l, sc[k]);
        assert(has_prefix(l, script_signature_prefixes()[k]));
        assert(crate::hot_strategy::any_prefix(l, script_signature_prefixes()));
        assert("ts"@[0] != "rs"@[0] && "ts"@[0] != "py"@[0]);
        assert("js"@[0] != "rs"@[0] && "js"@[0] != "py"@[0]);
        assert("tsx"@.len() != "rs"@.len() && "tsx"@.len() != "py"@.len());
        assert("jsx"@.len() != "rs"@.len() && "jsx"@.len() != "py"@.len());
    }
    if 0 <= k < 3 && has_prefix(l, go[k]) {
        lemma_not_comment(l, go[k]);
        assert(has_prefix(l, go_signature_prefixes()[k]));
        assert(crate::hot_strategy::any_prefix(l, go_signature_prefixes()));
        assert("go"@[0] != "rs"@[0] && "go"@[0] != "py"@[0] && "go"@[0] != "ts"@[0]);
        assert("go"@[0] != "js"@[0] && "go"@.len() != "tsx"@.len() && "go"@.len() != "jsx"@.len());
    }
    if l.len() > 0 && l[0] != '/' && l[0] != '#' {
        assert(has_prefix(l, l.subrange(0, 1)));
        lemma_not_comment(l, l.subrange(0, 1));
        let exts = seq!["rs"@, "py"@, "ts"@, "js"@, "tsx"@, "jsx"@, "go"@];
        assert(forall|i: int| 0 <= i < 7 ==> #[trigger] exts[i] != "java"@ && exts[i] != "kt"@) by {
            assert("java"@.len() == 4 && "kt"@.len() == 2);
            assert("kt"@[0] != "rs"@[0] && "kt"@[0] != "py"@[0] && "kt"@[0] != "ts"@[0]);
            assert("kt"@[0] != "js"@[0] && "kt"@[0] != "go"@[0]);
        }
        assert(exts[0] == "rs"@ && exts[1] == "py"@ && exts[2] == "ts"@ && exts[3] == "js"@);
        assert(exts[4] == "tsx"@ && exts[5] == "jsx"@ && exts[6] == "go"@);
    }
}


// ─── Classification ────────────────────────────────────────────

/// The extensions of source code.
pub open spec fn source_extension_list() -> Seq<Seq<char>> {
    seq![
        "rs"@, "py"@, "js"@, "ts"@, "tsx"@, "jsx"@, "go"@, "java"@,
        "kt"@, "scala"@, "rb"@, "php"@, "c"@, "cpp"@, "h"@, "hpp"@,
        "cs"@, "swift"@, "m"@, "mm"@, "zig"@, "nim"@, "lua"@,
        "ex"@, "exs"@, "erl"@, "hrl"@, "clj"@, "cljs"@, "vue"@,
        "svelte"@, "dart"@, "r"@, "jl"@, "hs"@, "ml"@, "fs"@,
        "elm"@, "v"@, "sol"@, "move"@, "cairo"@,
    ]
}

/// The extensions of configuration files.
pub open spec fn config_extension_list() -> Seq<Seq<char>> {
    seq!["json"@, "yaml"@, "yml"@, "toml"@, "ini"@, "cfg"@, "conf"@]
}

/// The extensions of documentation.
pub open spec fn doc_extension_list() -> Seq<Seq<char>> {
    seq!["md"@, "rst"@, "txt"@, "adoc"@, "org"@]
}

/// The extensions of binary assets.
pub open spec fn binary_extension_list() -> Seq<Seq<char>> {
    seq![
        "png"@, "jpg"@, "jpeg"@, "gif"@, "svg"@, "ico"@, "webp"@,
        "pdf"@, "zip"@, "tar"@, "gz"@, "bz2"@, "7z"@, "rar"@,
        "woff"@, "woff2"@, "ttf"@, "eot"@, "otf"@,
        "mp3"@, "mp4"@, "wav"@, "avi"@, "mov"@, "webm"@,
        "wasm"@, "so"@, "dll"@, "dylib"@, "exe"@, "bin"@,
        "db"@, "sqlite"@, "sqlite3"@,
    ]
}

/// The file names of project metadata.
pub open spec fn meta_name_list() -> Seq<Seq<char>> {
    seq![
        ".gitignore"@, ".gitattributes"@, ".editorconfig"@,
        ".prettierrc"@, ".eslintrc"@, ".eslintignore"@,
        "dockerfile"@, "docker-compose.yml"@, "docker-compose.yaml"@,
        "makefile"@, "justfile"@, "taskfile.yml"@,
        ".github"@, ".gitlab-ci.yml"@, ".circleci"@,
    ]
}

/// The directories whose files are tests.
pub open spec fn test_directory_list() -> Seq<Seq<char>> {
    seq!["test/"@, "tests/"@, "__tests__/"@, "spec/"@]
}

/// The markers of a test file's name.
pub open spec fn test_name_marker_list() -> Seq<Seq<char>> {
    seq!["_test."@, ".test."@, "_spec."@, ".spec."@]
}

/// A file is a test exactly when it lies under a directory named `test`,
/// `tests`, `__tests__` or `spec` (a whole component of the path), when its
/// name holds `_test.`, `.test.`, `_spec.` or `.spec.`, or when its name
/// starts with `test_`.
pub proof fn test_files(p: Seq<char>, f: Seq<char>)
    ensures
        is_test_spec(p, f) <==> (exists|i: int|
            0 <= i < 4 && (has_prefix(p, #[trigger] test_directory_list()[i]) || has_infix(
                p,
                "/"@ + test_directory_list()[i],
            ))) || (exists|i: int|
            0 <= i < 4 && has_infix(f, #[trigger] test_name_marker_list()[i]))
            || has_prefix(f, "test_"@),
{
    let ds = test_directory_list();
    let ms = test_name_marker_list();
    assert(under_dir(p, ds[0]) == (has_prefix(p, ds[0]) || has_infix(p, "/"@ + ds[0])));
    assert(under_dir(p, ds[1]) == (has_prefix(p, ds[1]) || has_infix(p, "/"@ + ds[1])));
    assert(under_dir(p, ds[2]) == (has_prefix(p, ds[2]) || has_infix(p, "/"@ + ds[2])));
    assert(under_dir(p, ds[3]) == (has_prefix(p, ds[3]) || has_infix(p, "/"@ + ds[3])));
    assert(has_infix(f, ms[0]) == has_infix(f, "_test."@));
    assert(has_infix(f, ms[1]) == has_infix(f, ".test."@));
    assert(has_infix(f, ms[2]) == has_infix(f, "_spec."@));
    assert(has_infix(f, ms[3]) == has_infix(f, ".spec."@));
}

/// The rules of classification over the lowercased path `p`, extension `e`
/// and file name `f`, in priority order: tests; mermaid diagrams (`mmd`,
/// `mermaid`); source code by extension; project metadata; configuration by
/// extension; documentation by extension; binary assets by extension.  Each
/// extension list is complete: no other extension makes a file source code,
/// configuration, documentation or a binary.
pub proof fn classification_rules(p: Seq<char>, e: Seq<char>, f: Seq<char>)
    ensures
        is_test_spec(p, f) ==> classify_parts(p, e, f) == ResourceType::TEST,
        !is_test_spec(p, f) && (e == "mmd"@ || e == "mermaid"@) ==> classify_parts(p, e, f)
            == ResourceType::MRM,
        !is_test_spec(p, f) && !(e == "mmd"@ || e == "mermaid"@) && source_extension_list().contains(e)
            ==> classify_parts(p, e, f) == ResourceType::SRC,
        !is_test_spec(p, f) && !(e == "mmd"@ || e == "mermaid"@) && !source_extension_list().contains(e)
            && meta_name_list().contains(f) ==> classify_parts(p, e, f) == ResourceType::META,
        !is_test_spec(p, f) && !(e == "mmd"@ || e == "mermaid"@) && !source_extension_list().contains(e)
            && !is_meta_spec(f, p) && config_extension_list().contains(e) ==> classify_parts(p, e, f)
            == ResourceType::CFG,
        classify_parts(p, e, f) == ResourceType::SRC ==> source_extension_list().contains(e),
        !is_test_spec(p, f) && !(e == "mmd"@ || e == "mermaid"@) && !source_extension_list().contains(e)
            && !is_meta_spec(f, p) && !is_config_spec(e, f) && doc_extension_list().contains(e)
            ==> classify_parts(p, e, f) == ResourceType::DOC,
        !is_test_spec(p, f) && !(e == "mmd"@ || e == "mermaid"@) && !source_extension_list().contains(e)
            && !is_meta_spec(f, p) && !is_config_spec(e, f) && !is_doc_spec(e, f)
            && binary_extension_list().contains(e) ==> classify_parts(p, e, f) == ResourceType::BIN,
        classify_parts(p, e, f) == ResourceType::BIN ==> binary_extension_list().contains(e),
        source_extensions() == source_extension_list(),
        config_extensions() == config_extension_list(),
        doc_extensions() == doc_extension_list(),
        binary_extensions() == binary_extension_list(),
        meta_file_names() == meta_name_list(),
{
    assert(source_extensions() =~= source_extension_list());
    assert(config_extensions() =~= config_extension_list());
    assert(doc_extensions() =~= doc_extension_list());
    assert(binary_extensions() =~= binary_extension_list());
    assert(meta_file_names() =~= meta_name_list());
}


/// Configuration and documentation recognised by name: `.env`,
/// `.env.example`, names ending in `rc`, dotfiles naming a config or an rc;
/// `license`, `licence`, and names starting with `readme`, `changelog` or
/// `contributing`.  Metadata is also recognised under `.github/`,
/// `.circleci/` and `.gitlab/` directories.
pub proof fn name_rules(p: Seq<char>, e: Seq<char>, f: Seq<char>)
    ensures
        f == ".env"@ || f == ".env.example"@ || has_suffix(f, "rc"@) || (has_prefix(f, "."@) && (
        has_infix(f, "config"@) || has_infix(f, "rc"@))) ==> is_config_spec(e, f),
        f == "license"@ || f == "licence"@ || has_prefix(f, "readme"@) || has_prefix(f, "changelog"@)
            || has_prefix(f, "contributing"@) ==> is_doc_spec(e, f),
        has_prefix(p, ".github/"@) || has_infix(p, "/.github/"@) || has_prefix(p, ".circleci/"@)
            || has_infix(p, "/.circleci/"@) || has_prefix(p, ".gitlab/"@) || has_infix(
            p,
            "/.gitlab/"@,
        ) ==> is_meta_spec(f, p),
{
    if has_infix(p, "/.github/"@) {
        assert("/"@ + ".github/"@ == "/.github/"@) by {
            reveal_strlit("/");
            reveal_strlit(".github/");
            reveal_strlit("/.github/");
            assert("/"@ + ".github/"@ =~= "/.github/"@);
        }
    }
    if has_infix(p, "/.circleci/"@) {
        assert("/"@ + ".circleci/"@ == "/.circleci/"@) by {
            reveal_strlit("/");
            reveal_strlit(".circleci/");
            reveal_strlit("/.circleci/");
            assert("/"@ + ".circleci/"@ =~= "/.circleci/"@);
        }
    }
    if has_infix(p, "/.gitlab/"@) {
        assert("/"@ + ".gitlab/"@ == "/.gitlab/"@) by {
            reveal_strlit("/");
            reveal_strlit(".gitlab/");
            reveal_strlit("/.gitlab/");
            assert("/"@ + ".gitlab/"@ =~= "/.gitlab/"@);
        }
    }
}


// ─── Hints ─────────────────────────────────────────────────────

/// The file names of entry points.
pub open spec fn entry_name_list() -> Seq<Seq<char>> {
    seq![
        "main.rs"@, "main.py"@, "main.go"@, "main.ts"@, "main.js"@,
        "index.ts"@, "index.js"@, "index.tsx"@, "index.jsx"@,
        "app.py"@, "app.ts"@, "app.js"@, "app.rs"@,
        "lib.rs"@, "mod.rs"@,
        "server.ts"@, "server.js"@, "server.py"@,
    ]
}

/// The hint of a path of type `t` whose lowercased file name is `f`: an
/// entry point, else the parent directory with `/` written `.` and
/// ` module`, else `source file`, for source code; build, toolchain or plain
/// configuration by name; overview, history, guide or plain documentation by
/// name; a fixed phrase for every other type.
pub proof fn hint_rules(path: Seq<char>, t: ResourceType, f: Seq<char>)
    ensures
        entry_point_names() == entry_name_list(),
        t == ResourceType::SRC && entry_name_list().contains(f) ==> raw_hint_named(path, t, f)
            == "entry point"@,
        t == ResourceType::SRC && !entry_name_list().contains(f) && parent(path).len() > 0 ==> {
            let h = raw_hint_named(path, t, f);
            let d = parent(path);
            &&& h.len() == d.len() + 7
            &&& has_suffix(h, " module"@)
            &&& forall|i: int|
                0 <= i < d.len() ==> #[trigger] h[i] == (if d[i] == '/' {
                    '.'
                } else {
                    d[i]
                })
        },
        t == ResourceType::SRC && !entry_name_list().contains(f) && parent(path).len() == 0
            ==> raw_hint_named(path, t, f) == "source file"@,
        t == ResourceType::CFG && (has_infix(f, "cargo"@) || has_infix(f, "package"@))
            ==> raw_hint_named(path, t, f) == "build config and dependencies"@,
        t == ResourceType::CFG && !(has_infix(f, "cargo"@) || has_infix(f, "package"@)) && (
        has_infix(f, "tsconfig"@) || has_infix(f, "jest"@)) ==> raw_hint_named(path, t, f)
            == "toolchain config"@,
        t == ResourceType::CFG && !(has_infix(f, "cargo"@) || has_infix(f, "package"@) || has_infix(
            f,
            "tsconfig"@,
        ) || has_infix(f, "jest"@)) ==> raw_hint_named(path, t, f) == "configuration"@,
        t == ResourceType::DOC && has_prefix(f, "readme"@) ==> raw_hint_named(path, t, f)
            == "project overview"@,
        t == ResourceType::DOC && !has_prefix(f, "readme"@) && has_infix(f, "changelog"@)
            ==> raw_hint_named(path, t, f) == "change history"@,
        t == ResourceType::DOC && !has_prefix(f, "readme"@) && !has_infix(f, "changelog"@)
            && has_infix(f, "contributing"@) ==> raw_hint_named(path, t, f) == "contribution guide"@,
        t == ResourceType::DOC && !has_prefix(f, "readme"@) && !has_infix(f, "changelog"@)
            && !has_infix(f, "contributing"@) ==> raw_hint_named(path, t, f) == "documentation"@,
        t == ResourceType::TEST ==> raw_hint_named(path, t, f) == "test suite"@,
        t == ResourceType::MRM ==> raw_hint_named(path, t, f) == "architecture/flow diagram"@,
        t == ResourceType::BIN ==> raw_hint_named(path, t, f) == "binary asset"@,
        t == ResourceType::META ==> raw_hint_named(path, t, f) == "project metadata"@,
        t == ResourceType::OTHER ==> raw_hint_named(path, t, f) == "project file"@,
{
    assert(entry_point_names() =~= entry_name_list());
    if t == ResourceType::SRC && !entry_name_list().contains(f) && parent(path).len() > 0 {
        reveal_strlit(" module");
        let h = raw_hint_named(path, t, f);
        let d = parent(path);
        assert(h.subrange(h.len() - 7, h.len() as int) =~= " module"@);
    }
}

/// A hint of at most 60 characters is kept whole; a longer one keeps its
/// first 57 characters and ends with `...`, 60 characters in all.
pub proof fn hint_cut_rules(h: Seq<char>)
    ensures
        h.len() <= 60 ==> cut_hint(h) == h,
        h.len() > 60 ==> cut_hint(h).len() == 60 && cut_hint(h).take(57) == h.take(57)
            && has_suffix(cut_hint(h), "..."@),
{
    reveal_strlit("...");
    if h.len() > 60 {
        let c = cut_hint(h);
        assert(c.take(57) =~= h.take(57));
        assert(c.subrange(c.len() - 3, c.len() as int) =~= "..."@);
    }
}

// ─── Entry points in the architecture summary ──────────────────

/// The resource is loaded always or on edit.
pub open spec fn eager(r: Resource) -> bool {
    r.load_when == LoadWhen::Always || r.load_when == LoadWhen::OnEdit
}

/// The summary lists one entry point per resource loaded always or on edit.
pub proof fn entry_points_are_the_eager_resources(rs: Seq<Resource>)
    ensures
        entry_texts(rs).len() == rs.filter(|r: Resource| eager(r)).len(),
    decreases rs.len(),
{
    reveal(Seq::filter);
    if rs.len() > 0 {
        entry_points_are_the_eager_resources(rs.drop_last());
        rs.drop_last().lemma_filter_len_push(|r: Resource| eager(r), rs.last());
        assert(rs.drop_last().push(rs.last()) =~= rs);
    }
}

// ─── Ignore patterns ───────────────────────────────────────────

/// A pattern `d/**` ignores the directory `d` and every path under it, and
/// nothing that merely starts with the same letters: a path that is not `d`,
/// does not lie under `d`, and that the compiled pattern does not match, is
/// kept.
pub proof fn directory_patterns_ignore_what_lies_under(d: Seq<char>, path: Seq<char>)
    requires
        !has_suffix(d, "/**"@),
        d.len() > 0,
        d.last() != '/',
    ensures
        (path == d || has_prefix(path, d + "/"@)) ==> should_ignore_spec(path, seq![d + "/**"@]),
        !(path == d || has_prefix(path, d + "/"@)) && !(crate::partitioner::glob_pattern_valid(
            d + "/**"@,
        ) && crate::partitioner::glob_pattern_matches(d + "/**"@, path)) ==> !should_ignore_spec(
            path,
            seq![d + "/**"@],
        ),
{
    reveal_strlit("/**");
    reveal_strlit("/");
    let p = d + "/**"@;
    assert(crate::scanner::glob_tail() =~= "/**"@);
    assert(p.subrange(0, p.len() - 3) =~= d);
    assert(p.subrange(p.len() - 3, p.len() as int) =~= "/**"@);
    assert(crate::scanner::trim_glob_tail(p) == crate::scanner::trim_glob_tail(d));
    assert(crate::scanner::trim_glob_tail(d) == d);
    assert(d.push('/') =~= d + "/"@);
    assert(seq![p][0] == p);
}


// ─── Header and unescaping ─────────────────────────────────────

/// The header opens with the version, the number of resources and the
/// number of hot resources, and ends with a blank line.
pub proof fn header_counts(c: CompilerConfig, p: PartitionResult, ts: Seq<char>)
    ensures
        has_prefix(
            header_text(c, p, ts),
            "@H\nV:1\nR:"@ + dec(p.resources.len() as nat) + "\nHOT:"@ + dec(p.hot_ids.len() as nat)
                + "\n"@,
        ),
        has_suffix(header_text(c, p, ts), "\n\n"@),
{
    let h = header_text(c, p, ts);
    let q = "@H\nV:1\nR:"@ + dec(p.resources.len() as nat) + "\nHOT:"@ + dec(p.hot_ids.len() as nat)
        + "\n"@;
    assert(h.subrange(0, q.len() as int) =~= q);
    reveal_strlit("\n");
    reveal_strlit("\n\n");
    reveal_strlit("SHARD:1/1\n");
    assert(h.subrange(h.len() - 2, h.len() as int) =~= "\n\n"@);
}

/// Unescaping turns the two characters `\` `n` into a newline and keeps
/// every other character: text without a backslash is unchanged.
pub proof fn unescape_rules(s: Seq<char>, c: char, r: char)
    ensures
        !s.contains('\\') ==> replace_escape(s, c, r) == s,
        replace_escape(seq!['\\', c] + s, c, r) == seq![r] + replace_escape(s, c, r),
        !s.contains('\\') ==> unescape_spec(s) == s,
{
    let t = seq!['\\', c] + s;
    assert(t.subrange(2, t.len() as int) =~= s);
    if !s.contains('\\') {
        unescape_rules_aux(s, c, r);
        unescape_rules_aux(s, 'n', '\n');
        unescape_rules_aux(s, 't', '\t');
    }
}

proof fn unescape_rules_aux(s: Seq<char>, c: char, r: char)
    requires
        !s.contains('\\'),
    ensures
        replace_escape(s, c, r) == s,
    decreases s.len(),
{
    if s.len() > 0 {
        assert(!s.drop_first().contains('\\')) by {
            if s.drop_first().contains('\\') {
                let i = choose|i: int| 0 <= i < s.drop_first().len() && s.drop_first()[i] == '\\';
                assert(s[i + 1] == '\\');
            }
        }
        assert(s[0] != '\\');
        unescape_rules_aux(s.drop_first(), c, r);
        assert(seq![s[0]] + s.drop_first() =~= s);
    }
}

} // verus!
