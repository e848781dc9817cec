use aimf_compiler::scanner::ScannedFile;
use aimf_compiler::types::CompilerConfig;
use aimf_compiler::{compile, compile_to_doc, generate_task};

fn file(path: &str, size: u64, content: &str) -> ScannedFile {
    ScannedFile {
        path: path.to_string(),
        abs_path: format!("/p/{}", path),
        size,
        hash: "12345678".to_string(),
        content: Some(content.to_string()),
    }
}

fn files() -> Vec<ScannedFile> {
    vec![
        file("Cargo.toml", 20, "[package]\nname = \"x\"\n"),
        file("src/main.rs", 13, "fn main() {}\n"),
        file("src/util.rs", 10, "fn u() {}\n"),
    ]
}

#[test]
fn compile_emits_all_sections() {
    let out = compile(&CompilerConfig::default(), &files()).unwrap();
    assert!(out.starts_with("@H\nV:1\nR:3\nHOT:2\nGRP:8\nTS:"));
    assert!(out.contains("\nROOT:.\n\n@G\n"));
    assert!(out.contains("@I\nF1|CFG|always|Cargo.toml|20|12345678|G3|build config and dependencies\n"));
    assert!(out.contains("F2|SRC|on_edit|src/main.rs|13|12345678|G8|entry point\n"));
    assert!(out.contains("F3|SRC|on_request|src/util.rs|10|12345678|G8|src module\n"));
    assert!(out.contains("@M DEPS\n<<[Cargo.toml]\n[package]\nname = \"x\"\n>>\n\n"));
    assert!(out.ends_with("@M F1\n<<[package]\nname = \"x\"\n>>\n\n@M F2\n<<fn main() {}\n>>\n\n"));
}

#[test]
fn compile_to_doc_fills_the_model() {
    let d = compile_to_doc(&CompilerConfig::default(), &files()).unwrap();
    assert_eq!(d.header.version, 1);
    assert_eq!(d.header.resource_count, 3);
    assert_eq!(d.header.hot_count, 2);
    assert_eq!(d.header.group_count, 8);
    assert!(d.header.shard.is_none());
    assert!(d.header.timestamp.ends_with('Z'));
    let keys: Vec<&str> = d.hot_entries.iter().map(|e| e.key.as_str()).collect();
    assert_eq!(keys, vec!["CTX", "ARCH", "DEPS", "F1", "F2"]);
    assert_eq!(d.hot_entries[0].payload, "task=initial compilation;focus=all");
    assert_eq!(d.hot_entries[4].payload, "fn main() {}\n");
    assert!(d.cold_blocks.is_empty());
}

#[test]
fn task_documents_select_resources() {
    let c = CompilerConfig::default();
    let t = generate_task(&c, &files(), "Fix", "Do it.", &["F2".to_string()]);
    assert_eq!(
        t,
        "@I\nF2|SRC|on_edit|src/main.rs|13|12345678|G8|entry point\n\n---\n# Task: Fix\n\nDo it.\n"
    );
    let all = generate_task(&c, &files(), "A", "B", &["*".to_string()]);
    assert_eq!(all.matches("|12345678|").count(), 3);
    let none = generate_task(&c, &files(), "A", "B", &[]);
    assert!(none.starts_with("@I\n\n---\n"));
}

#[test]
fn pipeline_cuts_long_hints_by_characters() {
    let parent = format!("{}é{}", "a".repeat(56), "b".repeat(10));
    let bad = vec![file(&format!("{}/x.rs", parent), 1, "")];
    let c = CompilerConfig::default();
    let hint = format!("{}é...", "a".repeat(56));
    assert!(compile(&c, &bad).unwrap().contains(&format!("|G8|{}\n", hint)));
    assert!(compile_to_doc(&c, &bad).is_some());
    assert!(generate_task(&c, &bad, "a", "b", &[]).starts_with("@I\n\n---"));
}
