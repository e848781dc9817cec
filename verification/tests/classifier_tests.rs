use aimf_compiler::classifier::{
    classify, generate_hint, is_binary, is_config, is_doc, is_entry_point, is_meta, is_source,
    is_test,
};
use aimf_compiler::types::ResourceType;

#[test]
fn classify_source_and_entry_points() {
    assert_eq!(classify("src/main.rs"), ResourceType::SRC);
    assert_eq!(classify("src/lib/parser.rs"), ResourceType::SRC);
    assert!(is_entry_point("src/main.rs"));
    assert!(is_entry_point("web/INDEX.TSX"));
    assert!(!is_entry_point("src/parser.rs"));
}

#[test]
fn classify_tests_before_source() {
    assert_eq!(classify("tests/test_main.rs"), ResourceType::TEST);
    assert_eq!(classify("pkg/foo_test.go"), ResourceType::TEST);
    assert_eq!(classify("spec/model.rb"), ResourceType::TEST);
    assert_eq!(classify("app.spec.ts"), ResourceType::TEST);
    assert_eq!(classify("test_utils.py"), ResourceType::TEST);
    // only a directory named like a test directory counts
    assert_eq!(classify("latest/main.rs"), ResourceType::SRC);
    assert_eq!(classify("contest/app.py"), ResourceType::SRC);
    assert_eq!(classify("a/test/b.py"), ResourceType::TEST);
}

#[test]
fn classify_is_case_insensitive() {
    assert_eq!(classify("SRC/MAIN.RS"), ResourceType::SRC);
    assert_eq!(classify("Docs/Flow.MMD"), ResourceType::MRM);
    assert_eq!(classify("LICENSE"), ResourceType::DOC);
    assert_eq!(classify("Makefile"), ResourceType::META);
}

#[test]
fn classify_every_type() {
    assert_eq!(classify("docs/arch.mermaid"), ResourceType::MRM);
    assert_eq!(classify("Cargo.toml"), ResourceType::CFG);
    assert_eq!(classify(".env"), ResourceType::CFG);
    assert_eq!(classify(".eslintrc"), ResourceType::META);
    assert_eq!(classify(".editorconfig"), ResourceType::META);
    assert_eq!(classify(".github/workflows/ci.yml"), ResourceType::META);
    assert_eq!(classify(".gitlab-ci.yml"), ResourceType::META);
    assert_eq!(classify("config/app.yml"), ResourceType::CFG);
    assert_eq!(classify("README.md"), ResourceType::DOC);
    assert_eq!(classify("CHANGELOG"), ResourceType::DOC);
    assert_eq!(classify("assets/logo.png"), ResourceType::BIN);
    assert_eq!(classify(".gitignore"), ResourceType::META);
    assert_eq!(classify(".github/workflows/ci"), ResourceType::META);
    assert_eq!(classify("notes.xyz"), ResourceType::OTHER);
}

#[test]
fn classify_predicates() {
    assert!(is_test("a/tests/b.rs", "b.rs"));
    assert!(!is_test("src/b.rs", "b.rs"));
    assert!(is_source("rs"));
    assert!(is_source("cairo"));
    assert!(!is_source("toml"));
    assert!(is_config("yaml", "x.yaml"));
    assert!(is_config("", ".prettierconfig"));
    assert!(!is_config("", "notes"));
    assert!(is_doc("", "readme"));
    assert!(is_doc("adoc", "guide.adoc"));
    assert!(is_binary("sqlite3"));
    assert!(!is_binary("rs"));
    assert!(is_meta("dockerfile", "dockerfile"));
    assert!(is_meta("x.yml", ".circleci/x.yml"));
}

#[test]
fn hints_by_type() {
    assert_eq!(generate_hint("src/main.rs", &ResourceType::SRC), "entry point");
    assert_eq!(generate_hint("src/lib/parser.rs", &ResourceType::SRC), "src.lib module");
    assert_eq!(generate_hint("parser.rs", &ResourceType::SRC), "source file");
    assert_eq!(generate_hint("package.json", &ResourceType::CFG), "build config and dependencies");
    // the file name is matched lowercased
    assert_eq!(generate_hint("Cargo.toml", &ResourceType::CFG), "build config and dependencies");
    assert_eq!(generate_hint("cargo.toml", &ResourceType::CFG), "build config and dependencies");
    assert_eq!(generate_hint("tsconfig.json", &ResourceType::CFG), "toolchain config");
    assert_eq!(generate_hint("readme.md", &ResourceType::DOC), "project overview");
    assert_eq!(generate_hint("README.md", &ResourceType::DOC), "project overview");
    assert_eq!(generate_hint("notes.md", &ResourceType::DOC), "documentation");
    assert_eq!(generate_hint("changelog.md", &ResourceType::DOC), "change history");
    assert_eq!(generate_hint("contributing.md", &ResourceType::DOC), "contribution guide");
    assert_eq!(generate_hint("x", &ResourceType::TEST), "test suite");
    assert_eq!(generate_hint("x", &ResourceType::MRM), "architecture/flow diagram");
    assert_eq!(generate_hint("x", &ResourceType::BIN), "binary asset");
    assert_eq!(generate_hint("x", &ResourceType::META), "project metadata");
    assert_eq!(generate_hint("x", &ResourceType::OTHER), "project file");
}

#[test]
fn long_hints_are_cut_to_sixty_chars() {
    let parent = "a".repeat(60);
    let path = format!("{}/x.rs", parent);
    let hint = generate_hint(&path, &ResourceType::SRC);
    assert_eq!(hint, format!("{}...", "a".repeat(57)));
    assert_eq!(hint.len(), 60);
    // exactly 60 characters stays whole
    let parent = "b".repeat(53);
    let path = format!("{}/x.rs", parent);
    let hint = generate_hint(&path, &ResourceType::SRC);
    assert_eq!(hint, format!("{} module", parent));
    assert_eq!(hint.len(), 60);
}

#[test]
fn hints_are_cut_by_characters() {
    // 60 two-byte characters: the hint is cut after 57 characters
    let parent = "é".repeat(60);
    let hint = generate_hint(&format!("{}/x.rs", parent), &ResourceType::SRC);
    assert_eq!(hint, format!("{}...", "é".repeat(57)));
    assert_eq!(hint.chars().count(), 60);
    // 60 characters (more than 60 bytes) stay whole
    let parent = "é".repeat(53);
    let hint = generate_hint(&format!("{}/x.rs", parent), &ResourceType::SRC);
    assert_eq!(hint, format!("{} module", parent));
}

#[test]
fn case_of_letters_never_changes_the_type() {
    for (a, b) in [("README.md", "readme.MD"), ("src/Tests/X.rs", "SRC/tests/x.RS"), ("Makefile", "MAKEFILE"), (".GitHub/ci.YML", ".github/CI.yml")] {
        assert_eq!(classify(a), classify(b));
    }
}
